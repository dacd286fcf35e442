//! Incremental COPY binary blob writer.
use crate::binary::be::{int_be, push_i16, push_i32};
use crate::binary::header::{spec_header_bytes, PgBinaryHeader};
use crate::error::{Error, ErrorV};
use vstd::prelude::*;

verus! {

/// A field ready for the wire: NULL, or its payload bytes.
#[derive(Debug, Clone, PartialEq, Eq)]
pub enum EncodedField {
    Null,
    NonNull(Vec<u8>),
}

impl View for EncodedField {
    type V = Option<Seq<u8>>;

    open spec fn view(&self) -> Option<Seq<u8>> {
        match self {
            EncodedField::Null => None,
            EncodedField::NonNull(p) => Some(p@),
        }
    }
}

/// The envelope of one field: length prefix and payload, or `-1` for NULL.
pub open spec fn spec_field_bytes(f: Option<Seq<u8>>) -> Result<Seq<u8>, ErrorV> {
    match f {
        None => Ok(int_be(-1, 4)),
        Some(p) => if p.len() > i32::MAX {
            Err(ErrorV::FieldTooLarge { len: p.len() as i64 })
        } else {
            Ok(int_be(p.len() as int, 4) + p)
        },
    }
}

/// The bytes written for the fields `fs` in order, up to the first field that is too large,
/// and that field's error.
pub open spec fn spec_fields_bytes(fs: Seq<Option<Seq<u8>>>) -> (Seq<u8>, Option<ErrorV>)
    decreases fs.len(),
{
    if fs.len() == 0 {
        (Seq::empty(), None)
    } else {
        match spec_field_bytes(fs[0]) {
            Err(e) => (Seq::empty(), Some(e)),
            Ok(b) => {
                let (rest, e) = spec_fields_bytes(fs.drop_first());
                (b + rest, e)
            },
        }
    }
}

/// The bytes written for a tuple: field count, then the fields.
pub open spec fn spec_tuple_bytes(count: i16, fs: Seq<Option<Seq<u8>>>) -> (Seq<u8>, Option<ErrorV>) {
    let (b, e) = spec_fields_bytes(fs);
    (int_be(count as int, 2) + b, e)
}

/// The footer sentinel on the wire.
pub open spec fn spec_footer_bytes() -> Seq<u8> {
    int_be(-1, 2)
}

/// Append every byte of `bytes`.
pub fn push_all(buf: &mut Vec<u8>, bytes: &[u8])
    ensures
        final(buf)@ == old(buf)@ + bytes@,
{
    let mut i: usize = 0;
    while i < bytes.len()
        invariant
            i <= bytes@.len(),
            buf@ == old(buf)@ + bytes@.take(i as int),
        decreases bytes@.len() - i,
    {
        buf.push(bytes[i]);
        assert(bytes@.take(i + 1) =~= bytes@.take(i as int).push(bytes@[i as int]));
        i = i + 1;
    }
    assert(bytes@.take(bytes@.len() as int) =~= bytes@);
}

/// Builds a COPY binary blob: header at creation, then tuples, then the footer.
pub struct PgBinaryWriter {
    buf: Vec<u8>,
}

impl PgBinaryWriter {
    /// The bytes written so far.
    pub closed spec fn bytes(&self) -> Seq<u8> {
        self.buf@
    }

    pub fn new() -> (r: Self)
        ensures
            r.bytes() == spec_header_bytes(),
    {
        let mut buf = Vec::new();
        PgBinaryHeader::write_to(&mut buf);
        assert(buf@ =~= spec_header_bytes());
        Self { buf }
    }

    pub fn finish(self) -> (r: Vec<u8>)
        ensures
            r@ == self.bytes(),
    {
        self.buf
    }

    fn write_bytes(&mut self, bytes: &[u8])
        ensures
            final(self).bytes() == old(self).bytes() + bytes@,
    {
        push_all(&mut self.buf, bytes);
    }

    pub fn write_field(&mut self, field: &EncodedField) -> (r: Result<(), Error>)
        ensures
            match spec_field_bytes(field@) {
                Ok(b) => r is Ok && final(self).bytes() == old(self).bytes() + b,
                Err(e) => r matches Err(x) && x@ == e && final(self).bytes() == old(self).bytes(),
            },
    {
        match field {
            EncodedField::Null => {
                push_i32(&mut self.buf, -1);
            },
            EncodedField::NonNull(payload) => {
                if payload.len() > 0x7fff_ffff {
                    return Err(Error::FieldTooLarge { len: payload.len() as i64 });
                }
                push_i32(&mut self.buf, payload.len() as i32);
                self.write_bytes(payload.as_slice());
                assert(final(self).bytes() =~= old(self).bytes() + spec_field_bytes(field@)->Ok_0);
            },
        }
        Ok(())
    }

    pub fn write_tuple(&mut self, field_count: i16, fields: &Vec<EncodedField>) -> (r: Result<
        (),
        Error,
    >)
        ensures
            ({
                let (b, e) = spec_tuple_bytes(field_count, fields@.map_values(|f: EncodedField| f@));
                &&& final(self).bytes() == old(self).bytes() + b
                &&& match e {
                    None => r is Ok,
                    Some(x) => r matches Err(y) && y@ == x,
                }
            }),
    {
        let ghost fs = fields@.map_values(|f: EncodedField| f@);
        push_i16(&mut self.buf, field_count);
        let ghost start = self.bytes();
        let mut i: usize = 0;
        proof {
            assert(fs.skip(0) =~= fs);
            assert(self.bytes().skip(start.len() as int) =~= Seq::<u8>::empty());
            assert(self.bytes().subrange(0, start.len() as int) =~= start);
        }
        while i < fields.len()
            invariant
                i <= fields@.len(),
                fs == fields@.map_values(|f: EncodedField| f@),
                start == old(self).bytes() + int_be(field_count as int, 2),
                ({
                    let (rest, e) = spec_fields_bytes(fs.skip(i as int));
                    let (all, e_all) = spec_fields_bytes(fs);
                    &&& self.bytes().len() >= start.len()
                    &&& self.bytes().subrange(0, start.len() as int) == start
                    &&& all == self.bytes().skip(start.len() as int) + rest
                    &&& e_all == e
                }),
            decreases fields@.len() - i,
        {
            let ghost before = self.bytes();
            assert(fs.skip(i as int).drop_first() =~= fs.skip(i + 1));
            assert(fs.skip(i as int)[0] == fields@[i as int]@);
            match self.write_field(&fields[i]) {
                Ok(()) => {},
                Err(e) => {
                    proof {
                        assert(self.bytes().skip(start.len() as int) + Seq::<u8>::empty() =~= self.bytes().skip(start.len() as int));
                        assert(self.bytes() =~= start + self.bytes().skip(start.len() as int));
                    }
                    return Err(e);
                },
            }
            proof {
                assert(self.bytes().subrange(0, start.len() as int) =~= start);
                assert(self.bytes().skip(start.len() as int) =~= before.skip(start.len() as int) + spec_field_bytes(fs[i as int])->Ok_0);
            }
            i = i + 1;
        }
        proof {
            assert(fs.skip(i as int) =~= Seq::<Option<Seq<u8>>>::empty());
            assert(self.bytes() =~= start + self.bytes().skip(start.len() as int));
        }
        Ok(())
    }

    pub fn write_footer(&mut self)
        ensures
            final(self).bytes() == old(self).bytes() + spec_footer_bytes(),
    {
        push_i16(&mut self.buf, -1);
    }
}

impl Default for PgBinaryWriter {
    fn default() -> (r: Self)
        ensures
            r.bytes() == spec_header_bytes(),
    {
        Self::new()
    }
}

} // verus!
