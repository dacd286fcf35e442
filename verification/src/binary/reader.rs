//! Incremental COPY binary blob parser.
use crate::binary::be::be_int;
use crate::binary::buffer_view::{eof, lemma_skip_skip, BufferView};
use crate::binary::field::{spec_read_field, FieldCell, FieldReader};
use crate::binary::header::{spec_header, PgBinaryHeader};
use crate::error::{Error, ErrorV};
use crate::schema::Schema;
use vstd::prelude::*;

verus! {

/// Reading `k` field envelopes from the front of `s`: the fields or the first error, and
/// the number of bytes consumed either way.
pub open spec fn spec_fields(s: Seq<u8>, k: int) -> (Result<Seq<Option<Seq<u8>>>, ErrorV>, int)
    decreases k,
{
    if k <= 0 {
        (Ok(Seq::empty()), 0)
    } else {
        let (r, n) = spec_read_field(s);
        match r {
            Err(e) => (Err(e), n),
            Ok(f) => {
                let (r2, n2) = spec_fields(s.skip(n), k - 1);
                (
                    match r2 {
                        Ok(fs) => Ok(seq![f] + fs),
                        Err(e) => Err(e),
                    },
                    n + n2,
                )
            },
        }
    }
}

/// Reading one tuple from the front of `s` for a table of `ncols` columns: its fields,
/// `None` at the footer, or the error; and the number of bytes consumed either way.
pub open spec fn spec_tuple_raw(ncols: int, s: Seq<u8>) -> (
    Result<Option<Seq<Option<Seq<u8>>>>, ErrorV>,
    int,
) {
    if s.len() < 2 {
        (Err(eof(2, s)), 0)
    } else {
        let c = be_int(s.take(2));
        if c == -1 {
            (Ok(None), 2)
        } else if c != ncols {
            (Err(ErrorV::FieldCountMismatch { expected: ncols as i16, got: c as i16 }), 2)
        } else {
            let (r, n) = spec_fields(s.skip(2), c);
            (
                match r {
                    Ok(fs) => Ok(Some(fs)),
                    Err(e) => Err(e),
                },
                2 + n,
            )
        }
    }
}

/// The content of a tuple read from the wire.
pub open spec fn cells_view(cells: Seq<FieldCell>) -> Seq<Option<Seq<u8>>> {
    cells.map_values(|c: FieldCell| c.cell())
}

/// The cells all have a well-formed payload view.
pub open spec fn cells_wf(cells: Seq<FieldCell>) -> bool {
    forall|i: int| 0 <= i < cells.len() ==> #[trigger] cells[i].wf()
}

/// The content of the result of reading a tuple.
pub open spec fn tuple_result(r: Result<Option<Vec<FieldCell>>, Error>) -> Result<
    Option<Seq<Option<Seq<u8>>>>,
    ErrorV,
> {
    match r {
        Ok(None) => Ok(None),
        Ok(Some(cells)) => Ok(Some(cells_view(cells@))),
        Err(e) => Err(e@),
    }
}

/// Reads the tuples of a COPY blob after its header, one at a time.
pub struct PgBinaryReader<'a> {
    reader: FieldReader<'a>,
    schema: &'a Schema,
    finished: bool,
}

impl<'a> PgBinaryReader<'a> {
    /// The read position in the blob.
    pub closed spec fn input(&self) -> BufferView<'a> {
        self.reader.data
    }

    /// The footer has been read.
    pub closed spec fn is_finished(&self) -> bool {
        self.finished
    }

    /// The schema the tuples are read against.
    pub closed spec fn schema_of(&self) -> Schema {
        *self.schema
    }

    pub open spec fn wf(&self) -> bool {
        &&& self.input().wf()
        &&& self.schema_of().columns@.len() <= i16::MAX
    }

    /// Check the column count, then read the header.
    pub fn new(schema: &'a Schema, data: BufferView<'a>) -> (r: Result<Self, Error>)
        requires
            data.wf(),
        ensures
            schema.columns@.len() > i16::MAX ==> (r matches Err(e) && e@ == (ErrorV::TooManyColumns {
                max: i16::MAX,
                got: schema.columns@.len() as usize,
            })),
            schema.columns@.len() <= i16::MAX ==> (match spec_header(data.rest()) {
                Ok((_, _, n)) => r matches Ok(rd) && rd.wf() && rd.input().advanced(data, n)
                    && !rd.is_finished() && rd.schema_of() == *schema,
                Err(e) => r matches Err(x) && x@ == e,
            }),
    {
        if schema.columns.len() > 0x7fff {
            return Err(Error::TooManyColumns { max: 0x7fff, got: schema.columns.len() });
        }
        let mut data = data;
        let _header = PgBinaryHeader::parse(&mut data)?;
        Ok(Self { reader: FieldReader::from_view(data), schema, finished: false })
    }

    /// The next tuple's fields, or `None` once the footer has been read.
    pub fn next_tuple_raw(&mut self) -> (r: Result<Option<Vec<FieldCell<'a>>>, Error>)
        requires
            old(self).wf(),
        ensures
            final(self).wf(),
            final(self).input().bytes() == old(self).input().bytes(),
            final(self).schema_of() == old(self).schema_of(),
            r matches Ok(Some(cells)) ==> cells_wf(cells@),
            old(self).is_finished() ==> (r matches Ok(None) && *final(self) == *old(self)),
            !old(self).is_finished() ==> ({
                let (t, n) = spec_tuple_raw(
                    old(self).schema_of().columns@.len() as int,
                    old(self).input().rest(),
                );
                &&& tuple_result(r) == t
                &&& final(self).input().position() == old(self).input().position() + n
                &&& final(self).is_finished() == (t == Ok::<
                    Option<Seq<Option<Seq<u8>>>>,
                    ErrorV,
                >(None))
            }),
    {
        if self.finished {
            return Ok(None);
        }
        if self.reader.remaining() < 2 {
            return Err(Error::UnexpectedEof { expected: 2, available: self.reader.remaining() });
        }
        if self.try_consume_footer()? {
            return Ok(None);
        }
        let ghost s = self.reader.data.rest();
        let ghost p0 = self.reader.data.position();
        let field_count = self.reader.read_field_count()?;
        let expected = self.schema.columns.len() as i16;
        if field_count != expected {
            return Err(Error::FieldCountMismatch { expected, got: field_count });
        }
        let ghost s2 = self.reader.data.rest();
        assert(s2 =~= s.skip(2));
        let mut fields: Vec<FieldCell<'a>> = Vec::new();
        let mut i: i16 = 0;
        assert(s2.skip(0) =~= s2);
        while i < field_count
            invariant
                self.wf(),
                self.reader.data.bytes() == old(self).input().bytes(),
                self.schema == old(self).schema,
                !self.finished,
                !old(self).finished,
                p0 == old(self).input().position(),
                0 <= p0,
                s == old(self).input().rest(),
                s2 == s.skip(2),
                be_int(s.take(2)) == field_count as int,
                field_count as int == self.schema.columns@.len(),
                0 <= i <= field_count,
                cells_wf(fields@),
                self.reader.data.position() >= p0 + 2,
                s2 == self.reader.data.bytes().skip(p0 + 2),
                self.reader.data.rest() == s2.skip(self.reader.data.position() - (p0 + 2)),
                ({
                    let (r_all, n_all) = spec_fields(s2, field_count as int);
                    let (r_rest, n_rest) = spec_fields(self.reader.data.rest(), field_count - i);
                    &&& n_all == (self.reader.data.position() - (p0 + 2)) + n_rest
                    &&& r_all == match r_rest {
                        Ok(fs) => Ok(cells_view(fields@) + fs),
                        Err(e) => Err(e),
                    }
                }),
            decreases field_count - i,
        {
            let ghost before = self.reader.data.rest();
            let cell = match self.reader.read_field() {
                Ok(c) => c,
                Err(e) => {
                    proof {
                        let (rr, nn) = spec_read_field(before);
                        assert(rr is Err);
                        let (r_rest, n_rest) = spec_fields(before, field_count - i);
                        assert(r_rest is Err);
                        assert(n_rest == nn);
                        assert(s.skip(2) == s2);
                        let (t, n) = spec_tuple_raw(self.schema.columns@.len() as int, s);
                        assert(t is Err);
                        assert(n == 2 + (self.reader.data.position() - (p0 + 2)));
                        assert(self.reader.data.position() == old(self).input().position() + n);
                    }
                    return Err(e);
                },
            };
            proof {
                assert(self.reader.data.position() >= p0 + 2);
                assert(self.reader.data.bytes() == old(self).input().bytes());
                lemma_skip_skip(
                    self.reader.data.bytes(),
                    p0 + 2,
                    self.reader.data.position() - (p0 + 2),
                );
                let (_, n) = spec_read_field(before);
                assert(self.reader.data.rest() =~= before.skip(n));
                assert(cells_view(fields@.push(cell)) =~= cells_view(fields@).push(cell.cell()));
                assert forall|fs: Seq<Option<Seq<u8>>>|
                    #![auto]
                    cells_view(fields@) + (seq![cell.cell()] + fs) == cells_view(fields@.push(cell))
                        + fs by {
                    assert(cells_view(fields@) + (seq![cell.cell()] + fs) =~= cells_view(
                        fields@.push(cell),
                    ) + fs);
                }
            }
            fields.push(cell);
            i = i + 1;
        }
        proof {
            assert(cells_view(fields@) + Seq::<Option<Seq<u8>>>::empty() =~= cells_view(fields@));
        }
        Ok(Some(fields))
    }

    /// Succeed once the footer has been read, reading it now if it is next.
    pub fn ensure_finished(&mut self) -> (r: Result<(), Error>)
        requires
            old(self).wf(),
        ensures
            final(self).wf(),
            final(self).input().bytes() == old(self).input().bytes(),
            final(self).schema_of() == old(self).schema_of(),
            old(self).is_finished() ==> (r is Ok && *final(self) == *old(self)),
            !old(self).is_finished() ==> ({
                let s = old(self).input().rest();
                if s.len() == 0 {
                    r matches Err(e) && e@ == eof(2, s) && *final(self) == *old(self)
                } else if s.len() < 2 {
                    r matches Err(e) && e@ == eof(2, s) && *final(self) == *old(self)
                } else if be_int(s.take(2)) == -1 {
                    r is Ok && final(self).is_finished() && final(self).input().advanced(
                        old(self).input(),
                        2,
                    )
                } else {
                    r matches Err(e) && e@ == ErrorV::InvalidFooter && *final(self) == *old(self)
                }
            }),
    {
        if self.finished {
            return Ok(());
        }
        if self.reader.remaining() == 0 {
            return Err(Error::UnexpectedEof { expected: 2, available: 0 });
        }
        if !self.try_consume_footer()? {
            return Err(Error::InvalidFooter);
        }
        Ok(())
    }

    fn try_consume_footer(&mut self) -> (r: Result<bool, Error>)
        requires
            old(self).wf(),
            !old(self).is_finished(),
        ensures
            final(self).wf(),
            final(self).schema_of() == old(self).schema_of(),
            final(self).input().bytes() == old(self).input().bytes(),
            ({
                let s = old(self).input().rest();
                if s.len() < 2 {
                    r matches Err(e) && e@ == eof(2, s) && *final(self) == *old(self)
                } else if be_int(s.take(2)) == -1 {
                    r == Ok::<bool, Error>(true) && final(self).is_finished()
                        && final(self).input().advanced(old(self).input(), 2)
                } else {
                    r == Ok::<bool, Error>(false) && *final(self) == *old(self)
                }
            }),
    {
        if self.reader.peek_field_count()? == -1 {
            let _ = self.reader.read_field_count();
            self.finished = true;
            Ok(true)
        } else {
            Ok(false)
        }
    }
}

} // verus!
