//! COPY binary field envelope: `int32` length prefix + optional payload.
use crate::binary::be::be_int;
use crate::binary::buffer_view::{eof, BufferView};
use crate::error::{Error, ErrorV};
use vstd::prelude::*;

verus! {

/// One field as read from the wire: NULL, or a view over its payload.
#[derive(Debug, Clone, Copy, PartialEq, Eq)]
pub struct FieldCell<'a> {
    pub is_null: bool,
    pub payload: BufferView<'a>,
}

impl<'a> FieldCell<'a> {
    pub open spec fn wf(&self) -> bool {
        self.payload.wf()
    }

    /// `None` for NULL, else the payload bytes.
    pub open spec fn cell(&self) -> Option<Seq<u8>> {
        if self.is_null {
            None
        } else {
            Some(self.payload.rest())
        }
    }
}

/// Reading one field envelope from the front of `s`: the field (`None` for NULL) or the
/// error, and the number of bytes consumed either way.
pub open spec fn spec_read_field(s: Seq<u8>) -> (Result<Option<Seq<u8>>, ErrorV>, int) {
    if s.len() < 4 {
        (Err(eof(4, s)), 0)
    } else {
        let len = be_int(s.take(4));
        let rest = s.skip(4);
        if len == -1 {
            (Ok(None), 4)
        } else if len < 0 {
            (Err(ErrorV::FieldTooLarge { len: len as i64 }), 4)
        } else if len > rest.len() {
            (Err(eof(len, rest)), 4)
        } else {
            (Ok(Some(rest.take(len))), 4 + len)
        }
    }
}

/// The content of a read field.
pub open spec fn cell_result(r: Result<FieldCell, Error>) -> Result<Option<Seq<u8>>, ErrorV> {
    match r {
        Ok(c) => Ok(c.cell()),
        Err(e) => Err(e@),
    }
}

/// Cursor over a COPY tuple stream (field count + length-prefixed fields).
pub struct FieldReader<'a> {
    pub data: BufferView<'a>,
}

impl<'a> FieldReader<'a> {
    pub open spec fn wf(&self) -> bool {
        self.data.wf()
    }

    pub fn from_view(data: BufferView<'a>) -> (r: Self)
        ensures
            r.data == data,
    {
        Self { data }
    }

    pub fn remaining(&self) -> (r: usize)
        requires
            self.wf(),
        ensures
            r == self.data.rest().len(),
    {
        self.data.remaining()
    }

    pub fn read_field_count(&mut self) -> (r: Result<i16, Error>)
        requires
            old(self).wf(),
        ensures
            match r {
                Ok(v) => 2 <= old(self).data.rest().len() && v as int == be_int(
                    old(self).data.rest().take(2),
                ) && final(self).data.advanced(old(self).data, 2),
                Err(e) => old(self).data.rest().len() < 2 && e@ == eof(2, old(self).data.rest())
                    && *final(self) == *old(self),
            },
    {
        self.data.read_i16()
    }

    pub fn peek_field_count(&self) -> (r: Result<i16, Error>)
        requires
            self.wf(),
        ensures
            match r {
                Ok(v) => 2 <= self.data.rest().len() && v as int == be_int(self.data.rest().take(2)),
                Err(e) => self.data.rest().len() < 2 && e@ == eof(2, self.data.rest()),
            },
    {
        self.data.peek_i16()
    }

    pub fn read_i32(&mut self) -> (r: Result<i32, Error>)
        requires
            old(self).wf(),
        ensures
            match r {
                Ok(v) => 4 <= old(self).data.rest().len() && v as int == be_int(
                    old(self).data.rest().take(4),
                ) && final(self).data.advanced(old(self).data, 4),
                Err(e) => old(self).data.rest().len() < 4 && e@ == eof(4, old(self).data.rest())
                    && *final(self) == *old(self),
            },
    {
        self.data.read_i32()
    }

    pub fn read_field(&mut self) -> (r: Result<FieldCell<'a>, Error>)
        requires
            old(self).wf(),
        ensures
            r matches Ok(c) ==> c.wf(),
            r matches Ok(c) ==> (c.is_null ==> c.payload.bytes() == Seq::<u8>::empty()
                && c.payload.position() == 0),
            (cell_result(r), final(self).data.position() - old(self).data.position())
                == spec_read_field(old(self).data.rest()),
            final(self).wf(),
            final(self).data.bytes() == old(self).data.bytes(),
    {
        let ghost s = self.data.rest();
        let len = self.data.read_i32()?;
        proof {
            assert(self.data.rest() =~= s.skip(4));
        }
        if len == -1 {
            return Ok(FieldCell { is_null: true, payload: BufferView::empty() });
        }
        if len < 0 {
            return Err(Error::FieldTooLarge { len: len as i64 });
        }
        let payload = self.data.read_n_and_project_view(len as usize)?;
        Ok(FieldCell { is_null: false, payload })
    }
}

} // verus!
