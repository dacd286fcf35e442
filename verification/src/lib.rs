//! Bidirectional converter between PostgreSQL `FORMAT binary` COPY blobs and typed IR.
//!
//! [`decode`] reads a blob against a [`Schema`] into a [`PgBatch`]; [`encode`] writes a batch
//! back. [`Decoder`] and [`Encoder`] do the same one row at a time.
pub mod binary;
pub mod codec;
pub mod error;
pub mod laws;
pub mod reencode;
pub mod semantics;
pub mod schema;
pub mod traits;
pub mod value;

pub use binary::constants::COPY_MAGIC;
pub use error::Error;
pub use schema::{Column, PgType, Schema};
pub use traits::PgMorph;
pub use value::pgtypes::{
    ArrayDimension, NumericSign, PgArray, PgBool, PgBytea, PgChar, PgDate, PgFloat4, PgFloat8,
    PgInt2, PgInt4, PgInt8, PgInterval, PgJson, PgJsonb, PgMoney, PgName, PgNumeric, PgOid, PgText,
    PgTime, PgTimestamp, PgTimestamptz, PgTimetz, PgUuid, PgVarchar,
};
pub use value::{pg_value_variant_name, PgBatch, PgRow, PgValue};

use binary::buffer_view::{lemma_skip_skip, BufferView};
use binary::field::FieldCell;
use binary::header::{spec_header, spec_header_bytes};
use binary::reader::{cells_view, cells_wf, spec_tuple_raw, PgBinaryReader};
use binary::writer::{spec_footer_bytes, spec_tuple_bytes, EncodedField, PgBinaryWriter};
use codec::decode::{spec_decode_field, FieldDecoder};
use codec::encode::{field_result, spec_encode_field, FieldEncoder};
use error::{unit_result_view, ErrorV};
use binary::be::be_int;
use binary::field::spec_read_field;
use binary::reader::spec_fields;
use value::ValueV;
use vstd::prelude::*;

verus! {

/// Decoding the cells of one tuple from column `i` on, column by column; the first error wins.
pub open spec fn spec_decode_cells(cols: Seq<Column>, cells: Seq<Option<Seq<u8>>>, i: int) -> Result<
    Seq<ValueV>,
    ErrorV,
>
    decreases cols.len() - i,
{
    if i >= cols.len() || i < 0 {
        Ok(Seq::empty())
    } else {
        match spec_decode_field(cols[i].name@, cols[i].ty, cols[i].nullable, cells[i]) {
            Err(e) => Err(e),
            Ok(v) => match spec_decode_cells(cols, cells, i + 1) {
                Ok(vs) => Ok(seq![v] + vs),
                Err(e) => Err(e),
            },
        }
    }
}

/// One step of a [`Decoder`] over the bytes `s` that remain: the row, the error, or `None`
/// at the end; the number of bytes consumed; and whether the footer has been read.
pub open spec fn spec_next(cols: Seq<Column>, s: Seq<u8>, finished: bool) -> (
    Option<Result<Seq<ValueV>, ErrorV>>,
    int,
    bool,
) {
    if finished {
        (None, 0, true)
    } else {
        let (t, n) = spec_tuple_raw(cols.len() as int, s);
        match t {
            Err(e) => (Some(Err(e)), n, false),
            Ok(None) => (None, n, true),
            Ok(Some(cells)) => (Some(spec_decode_cells(cols, cells, 0)), n, false),
        }
    }
}

/// The rows of the tuples at the front of `s`, up to the footer; the first error wins.
pub open spec fn spec_rows(cols: Seq<Column>, s: Seq<u8>) -> Result<Seq<Seq<ValueV>>, ErrorV>
    decreases s.len(),
{
    let (r, n, _) = spec_next(cols, s, false);
    match r {
        None => Ok(Seq::empty()),
        Some(Err(e)) => Err(e),
        Some(Ok(row)) => if 0 < n <= s.len() {
            match spec_rows(cols, s.skip(n)) {
                Ok(rs) => Ok(seq![row] + rs),
                Err(e) => Err(e),
            }
        } else {
            Ok(seq![row])
        },
    }
}

/// Decoding a whole COPY binary blob `data` against the columns `cols`.
pub open spec fn spec_decode(cols: Seq<Column>, data: Seq<u8>) -> Result<Seq<Seq<ValueV>>, ErrorV> {
    if cols.len() > i16::MAX {
        Err(ErrorV::TooManyColumns { max: i16::MAX, got: cols.len() as usize })
    } else {
        match spec_header(data) {
            Err(e) => Err(e),
            Ok((_, _, n)) => spec_rows(cols, data.skip(n)),
        }
    }
}

/// Encoding the values of one row from column `i` on; the first error wins.
pub open spec fn spec_encode_cells(cols: Seq<Column>, vals: Seq<ValueV>, i: int) -> Result<
    Seq<Option<Seq<u8>>>,
    ErrorV,
>
    decreases cols.len() - i,
{
    if i >= cols.len() || i < 0 {
        Ok(Seq::empty())
    } else {
        match spec_encode_field(cols[i].name@, cols[i].ty, cols[i].nullable, vals[i]) {
            Err(e) => Err(e),
            Ok(f) => match spec_encode_cells(cols, vals, i + 1) {
                Ok(fs) => Ok(seq![f] + fs),
                Err(e) => Err(e),
            },
        }
    }
}

/// Writing one row: the bytes written (a field that is too large leaves a partial tuple)
/// and whether it succeeded.
pub open spec fn spec_row_write(cols: Seq<Column>, vals: Seq<ValueV>) -> (Seq<u8>, Result<(), ErrorV>) {
    if vals.len() != cols.len() {
        (
            Seq::empty(),
            Err(
                ErrorV::SchemaRowLengthMismatch {
                    expected: cols.len() as usize,
                    got: vals.len() as usize,
                },
            ),
        )
    } else if cols.len() > i16::MAX {
        (Seq::empty(), Err(ErrorV::TooManyColumns { max: i16::MAX, got: cols.len() as usize }))
    } else {
        match spec_encode_cells(cols, vals, 0) {
            Err(e) => (Seq::empty(), Err(e)),
            Ok(fs) => {
                let (b, e) = spec_tuple_bytes(cols.len() as i16, fs);
                (
                    b,
                    match e {
                        None => Ok(()),
                        Some(x) => Err(x),
                    },
                )
            },
        }
    }
}

/// The tuples for `rows` in order; the first error wins.
pub open spec fn spec_rows_bytes(cols: Seq<Column>, rows: Seq<Seq<ValueV>>) -> Result<Seq<u8>, ErrorV>
    decreases rows.len(),
{
    if rows.len() == 0 {
        Ok(Seq::empty())
    } else {
        let (b, r) = spec_row_write(cols, rows[0]);
        match r {
            Err(e) => Err(e),
            Ok(()) => match spec_rows_bytes(cols, rows.drop_first()) {
                Ok(rb) => Ok(b + rb),
                Err(e) => Err(e),
            },
        }
    }
}

/// Encoding the rows `rows` against the columns `cols` into a COPY binary blob.
pub open spec fn spec_encode(cols: Seq<Column>, rows: Seq<Seq<ValueV>>) -> Result<Seq<u8>, ErrorV> {
    match spec_rows_bytes(cols, rows) {
        Ok(b) => Ok(spec_header_bytes() + b + spec_footer_bytes()),
        Err(e) => Err(e),
    }
}

/// The content of the result of decoding a whole blob.
pub open spec fn batch_result(r: Result<PgBatch, Error>) -> Result<Seq<Seq<ValueV>>, ErrorV> {
    match r {
        Ok(b) => Ok(b@),
        Err(e) => Err(e@),
    }
}

/// The content of the result of an encode.
pub open spec fn bytes_result(r: Result<Vec<u8>, Error>) -> Result<Seq<u8>, ErrorV> {
    match r {
        Ok(b) => Ok(b@),
        Err(e) => Err(e@),
    }
}

/// The content of the result of decoding one row.
pub open spec fn row_result(r: Result<PgRow, Error>) -> Result<Seq<ValueV>, ErrorV> {
    match r {
        Ok(row) => Ok(row@),
        Err(e) => Err(e@),
    }
}

/// Decode a PostgreSQL `FORMAT binary` COPY blob into typed IR using the given schema.
pub fn decode(schema: &Schema, binary: &[u8]) -> (r: Result<PgBatch, Error>)
    requires
        binary@.len() <= isize::MAX,
    ensures
        batch_result(r) == spec_decode(schema.columns@, binary@),
{
    let mut decoder = Decoder::new(schema, binary)?;
    let mut rows: Vec<PgRow> = Vec::new();
    proof {
        let n = spec_header(binary@)->Ok_0.2;
        assert(decoder.rest() == binary@.skip(n));
        assert(rows@.map_values(|r: PgRow| r@) =~= Seq::<Seq<ValueV>>::empty());
    }
    loop
        invariant
            decoder.wf(),
            !decoder.is_finished(),
            decoder.schema_of() == *schema,
            spec_decode(schema.columns@, binary@) == match spec_rows(
                schema.columns@,
                decoder.rest(),
            ) {
                Ok(rs) => Ok(rows@.map_values(|r: PgRow| r@) + rs),
                Err(e) => Err(e),
            },
        decreases decoder.rest().len(),
    {
        let ghost s = decoder.rest();
        match decoder.next() {
            None => {
                proof {
                    assert(rows@.map_values(|r: PgRow| r@) + Seq::<Seq<ValueV>>::empty()
                        =~= rows@.map_values(|r: PgRow| r@));
                }
                let batch = PgBatch { rows };
                return Ok(batch);
            },
            Some(Err(e)) => {
                return Err(e);
            },
            Some(Ok(row)) => {
                proof {
                    let (_, n, _) = spec_next(schema.columns@, s, false);
                    lemma_next_consumes(schema.columns@, s);
                    assert(decoder.rest() == s.skip(n));
                    assert forall|rs: Seq<Seq<ValueV>>|
                        #![auto]
                        rows@.map_values(|r: PgRow| r@) + (seq![row@] + rs) == rows@.push(
                            row,
                        ).map_values(|r: PgRow| r@) + rs by {
                        assert(rows@.map_values(|r: PgRow| r@) + (seq![row@] + rs)
                            =~= rows@.push(row).map_values(|r: PgRow| r@) + rs);
                    }
                }
                rows.push(row);
            },
        }
    }
}

/// Encode typed IR into a PostgreSQL `FORMAT binary` COPY blob using the given schema.
pub fn encode(schema: &Schema, batch: &PgBatch) -> (r: Result<Vec<u8>, Error>)
    ensures
        bytes_result(r) == spec_encode(schema.columns@, batch@),
{
    let mut encoder = Encoder::new(schema);
    let ghost rows = batch@;
    let mut i: usize = 0;
    proof {
        assert(rows.skip(0) =~= rows);
        assert(encoder.bytes().skip(spec_header_bytes().len() as int) =~= Seq::<u8>::empty());
    }
    while i < batch.rows.len()
        invariant
            i <= batch.rows@.len(),
            rows == batch@,
            !encoder.is_finished(),
            encoder.schema_of() == *schema,
            encoder.bytes().len() >= spec_header_bytes().len(),
            encoder.bytes().take(spec_header_bytes().len() as int) == spec_header_bytes(),
            spec_rows_bytes(schema.columns@, rows) == match spec_rows_bytes(
                schema.columns@,
                rows.skip(i as int),
            ) {
                Ok(rb) => Ok(encoder.bytes().skip(spec_header_bytes().len() as int) + rb),
                Err(e) => Err(e),
            },
        decreases batch.rows@.len() - i,
    {
        let ghost before = encoder.bytes();
        proof {
            assert(rows.skip(i as int).drop_first() =~= rows.skip(i + 1));
            assert(rows.skip(i as int)[0] == batch.rows@[i as int]@);
        }
        match encoder.write_row(&batch.rows[i]) {
            Ok(()) => {},
            Err(e) => {
                return Err(e);
            },
        }
        proof {
            let h = spec_header_bytes().len() as int;
            assert(encoder.bytes().take(h) =~= spec_header_bytes());
            let (b, _) = spec_row_write(schema.columns@, batch.rows@[i as int]@);
            assert(encoder.bytes().skip(h) =~= before.skip(h) + b);
            assert forall|rb: Seq<u8>|
                #![auto]
                before.skip(h) + (b + rb) == encoder.bytes().skip(h) + rb by {
                assert(before.skip(h) + (b + rb) =~= encoder.bytes().skip(h) + rb);
            }
        }
        i = i + 1;
    }
    proof {
        let h = spec_header_bytes().len() as int;
        assert(rows.skip(i as int) =~= Seq::<Seq<ValueV>>::empty());
        assert(encoder.bytes().skip(h) + Seq::<u8>::empty() =~= encoder.bytes().skip(h));
        assert(encoder.bytes() =~= spec_header_bytes() + encoder.bytes().skip(h));
    }
    encoder.finish()
}

/// A tuple that is read takes no more bytes than there are, and at least its two count
/// bytes when it holds fields, one for each column.
pub proof fn lemma_tuple_consumes(ncols: int, s: Seq<u8>)
    requires
        ncols >= 0,
    ensures
        ({
            let (t, n) = spec_tuple_raw(ncols, s);
            &&& 0 <= n <= s.len()
            &&& t matches Ok(Some(fs)) ==> n >= 2 && fs.len() == ncols
        }),
{
    if s.len() >= 2 {
        let c = be_int(s.take(2));
        if c != -1 && c == ncols {
            lemma_fields_consumed(s.skip(2), c);
        }
    }
}

/// A row that is read takes at least its two count bytes and no more than the bytes there are.
pub proof fn lemma_next_consumes(cols: Seq<Column>, s: Seq<u8>)
    ensures
        ({
            let (r, n, _) = spec_next(cols, s, false);
            r matches Some(Ok(_)) ==> 2 <= n <= s.len()
        }),
{
    lemma_tuple_consumes(cols.len() as int, s);
}

/// Reading fields never consumes more bytes than there are, and gives one field per count.
pub proof fn lemma_fields_consumed(s: Seq<u8>, k: int)
    ensures
        0 <= spec_fields(s, k).1 <= s.len(),
        spec_fields(s, k).0 matches Ok(fs) ==> fs.len() == (if k < 0 { 0 } else { k }),
    decreases k,
{
    if k > 0 {
        let (r, n) = spec_read_field(s);
        if r is Ok {
            lemma_fields_consumed(s.skip(n), k - 1);
        }
    }
}

/// Incremental decoder for large in-memory COPY binary blobs.
pub struct Decoder<'a> {
    reader: PgBinaryReader<'a>,
    schema: &'a Schema,
}

impl<'a> Decoder<'a> {
    /// The bytes that remain to be read.
    pub closed spec fn rest(&self) -> Seq<u8> {
        self.reader.input().rest()
    }

    /// The footer has been read.
    pub closed spec fn is_finished(&self) -> bool {
        self.reader.is_finished()
    }

    /// The schema the rows are decoded against.
    pub closed spec fn schema_of(&self) -> Schema {
        *self.schema
    }

    pub closed spec fn wf(&self) -> bool {
        &&& self.reader.wf()
        &&& self.reader.schema_of() == *self.schema
    }

    /// Create a decoder positioned after the COPY header.
    pub fn new(schema: &'a Schema, binary: &'a [u8]) -> (r: Result<Self, Error>)
        requires
            binary@.len() <= isize::MAX,
        ensures
            schema.columns@.len() > i16::MAX ==> (r matches Err(e) && e@ == (
            ErrorV::TooManyColumns { max: i16::MAX, got: schema.columns@.len() as usize })),
            schema.columns@.len() <= i16::MAX ==> (match spec_header(binary@) {
                Ok((_, _, n)) => r matches Ok(d) && d.wf() && !d.is_finished() && d.schema_of()
                    == *schema && d.rest() == binary@.skip(n),
                Err(e) => r matches Err(x) && x@ == e,
            }),
    {
        let reader = PgBinaryReader::new(schema, BufferView::new(binary))?;
        Ok(Self { reader, schema })
    }

    /// The next row, its error, or `None` after the footer.
    pub fn next(&mut self) -> (r: Option<Result<PgRow, Error>>)
        requires
            old(self).wf(),
        ensures
            final(self).wf(),
            final(self).schema_of() == old(self).schema_of(),
            ({
                let (x, n, fin) = spec_next(
                    old(self).schema_of().columns@,
                    old(self).rest(),
                    old(self).is_finished(),
                );
                &&& match x {
                    None => r is None,
                    Some(rr) => r matches Some(y) && row_result(y) == rr,
                }
                &&& final(self).rest() == old(self).rest().skip(n)
                &&& final(self).is_finished() == fin
            }),
    {
        let ghost s = self.reader.input().rest();
        proof {
            lemma_tuple_consumes(self.schema.columns@.len() as int, s);
        }
        match self.reader.next_tuple_raw() {
            Ok(Some(cells)) => {
                proof {
                    lemma_skip_skip(
                        old(self).reader.input().bytes(),
                        old(self).reader.input().position(),
                        self.reader.input().position() - old(self).reader.input().position(),
                    );
                }
                Some(self.decode_row(cells))
            },
            Ok(None) => {
                proof {
                    if !old(self).is_finished() {
                        lemma_skip_skip(
                            old(self).reader.input().bytes(),
                            old(self).reader.input().position(),
                            2,
                        );
                    } else {
                        assert(s.skip(0) =~= s);
                    }
                }
                if let Err(err) = self.reader.ensure_finished() {
                    Some(Err(err))
                } else {
                    None
                }
            },
            Err(err) => {
                proof {
                    lemma_skip_skip(
                        old(self).reader.input().bytes(),
                        old(self).reader.input().position(),
                        self.reader.input().position() - old(self).reader.input().position(),
                    );
                }
                Some(Err(err))
            },
        }
    }

    fn decode_row(&self, cells: Vec<FieldCell<'_>>) -> (r: Result<PgRow, Error>)
        requires
            self.wf(),
            cells_wf(cells@),
            cells@.len() == self.schema_of().columns@.len(),
        ensures
            row_result(r) == spec_decode_cells(self.schema_of().columns@, cells_view(cells@), 0),
    {
        let ghost cols = self.schema.columns@;
        let ghost cv = cells_view(cells@);
        let mut values: Vec<PgValue> = Vec::new();
        let mut i: usize = 0;
        while i < self.schema.columns.len()
            invariant
                cols == self.schema.columns@,
                cv == cells_view(cells@),
                cells@.len() == cols.len(),
                cells_wf(cells@),
                i <= cols.len(),
                spec_decode_cells(cols, cv, 0) == match spec_decode_cells(cols, cv, i as int) {
                    Ok(vs) => Ok(values@.map_values(|v: PgValue| v@) + vs),
                    Err(e) => Err(e),
                },
            decreases cols.len() - i,
        {
            let column = &self.schema.columns[i];
            let decoder = FieldDecoder::new(column.name.as_str(), &column.ty, column.nullable);
            assert(cells@[i as int].wf());
            let v = match decoder.decode(cells[i]) {
                Ok(v) => v,
                Err(e) => {
                    return Err(e);
                },
            };
            proof {
                assert forall|vs: Seq<ValueV>|
                    #![auto]
                    values@.map_values(|x: PgValue| x@) + (seq![v@] + vs) == values@.push(
                        v,
                    ).map_values(|x: PgValue| x@) + vs by {
                    assert(values@.map_values(|x: PgValue| x@) + (seq![v@] + vs) =~= values@.push(
                        v,
                    ).map_values(|x: PgValue| x@) + vs);
                }
            }
            values.push(v);
            i = i + 1;
        }
        proof {
            assert(values@.map_values(|x: PgValue| x@) + Seq::<ValueV>::empty() =~= values@.map_values(
                |x: PgValue| x@,
            ));
        }
        Ok(PgRow { values })
    }
}

/// Incremental encoder that builds a COPY binary blob row-at-a-time.
pub struct Encoder<'a> {
    schema: &'a Schema,
    writer: PgBinaryWriter,
    finished: bool,
}

impl<'a> Encoder<'a> {
    /// The bytes written so far.
    pub closed spec fn bytes(&self) -> Seq<u8> {
        self.writer.bytes()
    }

    /// The footer has been written.
    pub closed spec fn is_finished(&self) -> bool {
        self.finished
    }

    /// The schema the rows are encoded against.
    pub closed spec fn schema_of(&self) -> Schema {
        *self.schema
    }

    /// Create an encoder with the COPY header already written.
    pub fn new(schema: &'a Schema) -> (r: Self)
        ensures
            r.bytes() == spec_header_bytes(),
            !r.is_finished(),
            r.schema_of() == *schema,
    {
        Self { schema, writer: PgBinaryWriter::new(), finished: false }
    }

    /// Append one row to the output blob.
    pub fn write_row(&mut self, row: &PgRow) -> (r: Result<(), Error>)
        ensures
            final(self).schema_of() == old(self).schema_of(),
            final(self).is_finished() == old(self).is_finished(),
            old(self).is_finished() ==> (r matches Err(e) && e@ == ErrorV::InvalidFooter
                && final(self).bytes() == old(self).bytes()),
            !old(self).is_finished() ==> ({
                let (b, res) = spec_row_write(old(self).schema_of().columns@, row@);
                &&& final(self).bytes() == old(self).bytes() + b
                &&& unit_result_view(r) == res
            }),
    {
        if self.finished {
            return Err(Error::InvalidFooter);
        }
        self.write_encoded_row(row)
    }

    /// Finalize the blob with the footer sentinel.
    pub fn finish(self) -> (r: Result<Vec<u8>, Error>)
        ensures
            !self.is_finished() ==> (r matches Ok(b) && b@ == self.bytes() + spec_footer_bytes()),
            self.is_finished() ==> (r matches Ok(b) && b@ == self.bytes()),
    {
        let mut this = self;
        if !this.finished {
            this.writer.write_footer();
            this.finished = true;
        }
        Ok(this.writer.finish())
    }

    fn write_encoded_row(&mut self, row: &PgRow) -> (r: Result<(), Error>)
        ensures
            final(self).schema_of() == old(self).schema_of(),
            final(self).is_finished() == old(self).is_finished(),
            ({
                let (b, res) = spec_row_write(old(self).schema_of().columns@, row@);
                &&& final(self).bytes() == old(self).bytes() + b
                &&& unit_result_view(r) == res
            }),
    {
        let ncols = self.schema.columns.len();
        if row.values.len() != ncols {
            proof {
                assert(old(self).bytes() + Seq::<u8>::empty() =~= old(self).bytes());
            }
            return Err(Error::SchemaRowLengthMismatch { expected: ncols, got: row.values.len() });
        }
        if ncols > 0x7fff {
            proof {
                assert(old(self).bytes() + Seq::<u8>::empty() =~= old(self).bytes());
            }
            return Err(Error::TooManyColumns { max: 0x7fff, got: ncols });
        }
        let ghost cols = self.schema.columns@;
        let ghost vals = row@;
        let mut fields: Vec<EncodedField> = Vec::new();
        let mut i: usize = 0;
        while i < ncols
            invariant
                cols == self.schema.columns@,
                vals == row@,
                ncols == cols.len(),
                ncols <= 0x7fff,
                vals.len() == cols.len(),
                row.values@.len() == ncols,
                i <= ncols,
                self.bytes() == old(self).bytes(),
                spec_encode_cells(cols, vals, 0) == match spec_encode_cells(cols, vals, i as int) {
                    Ok(fs) => Ok(fields@.map_values(|f: EncodedField| f@) + fs),
                    Err(e) => Err(e),
                },
            decreases ncols - i,
        {
            let column = &self.schema.columns[i];
            let encoder = FieldEncoder::new(column.name.as_str(), &column.ty, column.nullable);
            let f = match encoder.encode(&row.values[i]) {
                Ok(f) => f,
                Err(e) => {
                    proof {
                        assert(old(self).bytes() + Seq::<u8>::empty() =~= old(self).bytes());
                    }
                    return Err(e);
                },
            };
            proof {
                assert forall|fs: Seq<Option<Seq<u8>>>|
                    #![auto]
                    fields@.map_values(|x: EncodedField| x@) + (seq![f@] + fs) == fields@.push(
                        f,
                    ).map_values(|x: EncodedField| x@) + fs by {
                    assert(fields@.map_values(|x: EncodedField| x@) + (seq![f@] + fs)
                        =~= fields@.push(f).map_values(|x: EncodedField| x@) + fs);
                }
            }
            fields.push(f);
            i = i + 1;
        }
        proof {
            assert(fields@.map_values(|x: EncodedField| x@) + Seq::<Option<Seq<u8>>>::empty()
                =~= fields@.map_values(|x: EncodedField| x@));
        }
        self.writer.write_tuple(ncols as i16, &fields)
    }
}

} // verus!
