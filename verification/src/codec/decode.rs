//! Decode PostgreSQL binary field payloads into IR [`PgValue`]s.
use crate::binary::be::{be_int, be_nat};
use crate::binary::buffer_view::{eof, BufferView};
use crate::binary::field::FieldCell;
use crate::binary::text::char_count;
use crate::codec::array::{decode_array, spec_decode_array};
use crate::error::{ip, Error, ErrorV};
use crate::schema::PgType;
use crate::value::pgtypes;
use crate::value::pgtypes::numeric::{decode_numeric, spec_decode_numeric};
use crate::value::{value_result, PgValue, ValueV};
use vstd::prelude::*;
use vstd::utf8::{decode_utf8, valid_utf8};

verus! {

/// The error for a payload of the wrong length.
pub open spec fn len_err(column: Seq<char>, ty: PgType) -> ErrorV {
    ip(column, ty, "unexpected payload length"@)
}

/// The text of a UTF-8 payload.
pub open spec fn spec_utf8(column: Seq<char>, ty: PgType, p: Seq<u8>) -> Result<Seq<char>, ErrorV> {
    if valid_utf8(p) {
        Ok(decode_utf8(p))
    } else {
        Err(ip(column, ty, "invalid UTF-8"@))
    }
}

/// Date and timestamp payloads count from 2000-01-01; the IR counts from the Unix epoch.
/// The shift wraps around as the release build of plain integer addition does.
pub open spec fn spec_date_from_pg(pg_days: i32) -> i32 {
    pg_days.wrapping_add(10957)
}

pub open spec fn spec_timestamp_from_pg(pg_micros: i64) -> i64 {
    pg_micros.wrapping_add(946684800000000)
}

/// Decoding the payload `p` of a non-NULL field of scalar type `ty` in column `column`.
pub open spec fn spec_decode_scalar(column: Seq<char>, ty: PgType, p: Seq<u8>) -> Result<ValueV, ErrorV> {
    match ty {
        PgType::Bool => if p.len() != 1 {
            Err(len_err(column, ty))
        } else if p[0] == 0 {
            Ok(ValueV::Bool(false))
        } else if p[0] == 1 {
            Ok(ValueV::Bool(true))
        } else {
            Err(ip(column, ty, "invalid bool payload byte"@))
        },
        PgType::Bytea => Ok(ValueV::Bytea(p)),
        PgType::Char => if p.len() != 2 {
            Err(len_err(column, ty))
        } else {
            Ok(ValueV::Char(be_int(p) as i16))
        },
        PgType::Int2 => if p.len() != 2 {
            Err(len_err(column, ty))
        } else {
            Ok(ValueV::Int2(be_int(p) as i16))
        },
        PgType::Int4 => if p.len() != 4 {
            Err(len_err(column, ty))
        } else {
            Ok(ValueV::Int4(be_int(p) as i32))
        },
        PgType::Int8 => if p.len() != 8 {
            Err(len_err(column, ty))
        } else {
            Ok(ValueV::Int8(be_int(p) as i64))
        },
        PgType::Float4 => if p.len() != 4 {
            Err(len_err(column, ty))
        } else {
            Ok(ValueV::Float4(be_nat(p) as u32))
        },
        PgType::Float8 => if p.len() != 8 {
            Err(len_err(column, ty))
        } else {
            Ok(ValueV::Float8(be_nat(p) as u64))
        },
        PgType::Text => match spec_utf8(column, ty, p) {
            Ok(t) => Ok(ValueV::Text(t)),
            Err(e) => Err(e),
        },
        PgType::Varchar(m) => match spec_utf8(column, ty, p) {
            Ok(t) => if m is Some && t.len() > m->0 {
                Err(ip(column, ty, "varchar value exceeds max length"@))
            } else {
                Ok(ValueV::Varchar(t, m))
            },
            Err(e) => Err(e),
        },
        PgType::Name => match spec_utf8(column, ty, p) {
            Ok(t) => Ok(ValueV::Name(t)),
            Err(e) => Err(e),
        },
        PgType::Json => match spec_utf8(column, ty, p) {
            Ok(t) => Ok(ValueV::Json(t)),
            Err(e) => Err(e),
        },
        PgType::Jsonb => if p.len() < 1 {
            Err(ip(column, ty, "jsonb payload too short"@))
        } else {
            match spec_utf8(column, ty, p.skip(1)) {
                Ok(t) => Ok(ValueV::Jsonb(p[0], t)),
                Err(e) => Err(e),
            }
        },
        PgType::Date => if p.len() != 4 {
            Err(len_err(column, ty))
        } else {
            Ok(ValueV::Date(spec_date_from_pg(be_int(p) as i32)))
        },
        PgType::Time => if p.len() != 8 {
            Err(len_err(column, ty))
        } else {
            Ok(ValueV::Time(be_int(p) as i64))
        },
        PgType::Timestamp => if p.len() != 8 {
            Err(len_err(column, ty))
        } else {
            Ok(ValueV::Timestamp(spec_timestamp_from_pg(be_int(p) as i64)))
        },
        PgType::Timestamptz => if p.len() != 8 {
            Err(len_err(column, ty))
        } else {
            Ok(ValueV::Timestamptz(spec_timestamp_from_pg(be_int(p) as i64)))
        },
        PgType::Timetz => if p.len() != 12 {
            Err(len_err(column, ty))
        } else {
            Ok(ValueV::Timetz(be_int(p.take(8)) as i64, be_int(p.skip(8)) as i32))
        },
        PgType::Interval => if p.len() != 16 {
            Err(len_err(column, ty))
        } else {
            Ok(
                ValueV::Interval(
                    be_int(p.take(8)) as i64,
                    be_int(p.subrange(8, 12)) as i32,
                    be_int(p.skip(12)) as i32,
                ),
            )
        },
        PgType::Numeric => match spec_decode_numeric(column, ty, p) {
            Ok(n) => Ok(ValueV::Numeric(n)),
            Err(e) => Err(e),
        },
        PgType::Uuid => if p.len() != 16 {
            Err(len_err(column, ty))
        } else {
            Ok(ValueV::Uuid(p))
        },
        PgType::Money => if p.len() != 8 {
            Err(len_err(column, ty))
        } else {
            Ok(ValueV::Money(be_int(p) as i64))
        },
        PgType::Oid => if p.len() != 4 {
            Err(len_err(column, ty))
        } else {
            Ok(ValueV::Oid(be_nat(p) as u32))
        },
        PgType::Array(_) => Err(ErrorV::UnsupportedType(ty)),
    }
}

/// Decoding an array element: NULL is always allowed.
pub open spec fn spec_decode_element(column: Seq<char>, ty: PgType, cell: Option<Seq<u8>>) -> Result<
    ValueV,
    ErrorV,
> {
    match cell {
        None => Ok(ValueV::Null),
        Some(p) => spec_decode_scalar(column, ty, p),
    }
}

/// Decoding one field of a tuple in column `column` of type `ty`.
pub open spec fn spec_decode_field(
    column: Seq<char>,
    ty: PgType,
    nullable: bool,
    cell: Option<Seq<u8>>,
) -> Result<ValueV, ErrorV> {
    match cell {
        None => if nullable {
            Ok(ValueV::Null)
        } else {
            Err(ErrorV::UnexpectedNull { column })
        },
        Some(p) => match ty {
            PgType::Array(_) => spec_decode_array(column, ty, p),
            _ => spec_decode_scalar(column, ty, p),
        },
    }
}

/// Decodes the fields of one column.
pub struct FieldDecoder<'a> {
    pub column: &'a str,
    pub ty: &'a PgType,
    pub nullable: bool,
}

impl<'a> FieldDecoder<'a> {
    /// NULL is accepted.
    pub closed spec fn is_nullable(&self) -> bool {
        self.nullable
    }

    pub fn new(column: &'a str, ty: &'a PgType, nullable: bool) -> (r: Self)
        ensures
            r.column == column,
            r.ty == ty,
            r.is_nullable() == nullable,
    {
        Self { column, ty, nullable }
    }

    pub fn decode(&self, cell: FieldCell<'_>) -> (r: Result<PgValue, Error>)
        requires
            cell.wf(),
        ensures
            value_result(r) == spec_decode_field(
                self.column@,
                *self.ty,
                self.is_nullable(),
                cell.cell(),
            ),
    {
        if cell.is_null {
            if !self.nullable {
                return Err(Error::UnexpectedNull { column: String::from_str(self.column) });
            }
            return Ok(PgValue::Null);
        }
        match self.ty {
            PgType::Array(_) => decode_array(self, &cell),
            _ => self.decode_scalar(cell.payload),
        }
    }

    pub fn decode_array_element(&self, cell: FieldCell<'_>) -> (r: Result<PgValue, Error>)
        requires
            cell.wf(),
        ensures
            value_result(r) == spec_decode_element(self.column@, *self.ty, cell.cell()),
    {
        if cell.is_null {
            return Ok(PgValue::Null);
        }
        self.decode_scalar(cell.payload)
    }

    /// Fail with `reason` unless at least `min` bytes remain.
    pub fn ensure_min_remaining(&self, view: &BufferView<'_>, min: usize, reason: &'static str) -> (r:
        Result<(), Error>)
        requires
            view.wf(),
        ensures
            view.rest().len() >= min ==> r is Ok,
            view.rest().len() < min ==> (r matches Err(e) && e@ == ip(self.column@, *self.ty, reason@)),
    {
        if view.remaining() < min {
            return Err(self.invalid_payload(reason));
        }
        Ok(())
    }

    pub fn invalid_payload(&self, reason: &'static str) -> (e: Error)
        ensures
            e@ == ip(self.column@, *self.ty, reason@),
    {
        Error::InvalidPayload { column: String::from_str(self.column), ty: self.ty.clone(), reason }
    }

    fn map_view_len_err<T>(&self, result: Result<T, Error>) -> (r: Result<T, Error>)
        ensures
            match result {
                Ok(v) => r == Ok::<T, Error>(v),
                Err(e) => if (e is UnexpectedEof || e is MalformedInput) {
                    r matches Err(x) && x@ == len_err(self.column@, *self.ty)
                } else {
                    r == Err::<T, Error>(e)
                },
            },
    {
        match result {
            Err(Error::UnexpectedEof { .. }) => Err(self.invalid_payload("unexpected payload length")),
            Err(Error::MalformedInput { .. }) => Err(self.invalid_payload("unexpected payload length")),
            other => other,
        }
    }

    /// Fail unless exactly `len` bytes remain.
    fn read_exact(&self, view: &BufferView<'_>, len: usize) -> (r: Result<(), Error>)
        requires
            view.wf(),
        ensures
            view.rest().len() == len ==> r is Ok,
            view.rest().len() != len ==> (r matches Err(e) && e@ == len_err(self.column@, *self.ty)),
    {
        if view.remaining() != len {
            return Err(self.invalid_payload("unexpected payload length"));
        }
        Ok(())
    }

    fn read_u8_exact(&self, view: &mut BufferView<'_>, len: usize) -> (r: Result<u8, Error>)
        requires
            old(view).wf(),
            len == 1,
        ensures
            match r {
                Ok(v) => old(view).rest().len() == 1 && v == old(view).rest()[0],
                Err(e) => old(view).rest().len() != 1 && e@ == len_err(self.column@, *self.ty),
            },
    {
        self.map_view_len_err(view.read_u8_exact(len))
    }

    fn read_i16_exact(&self, view: &mut BufferView<'_>, len: usize) -> (r: Result<i16, Error>)
        requires
            old(view).wf(),
            len == 2,
        ensures
            match r {
                Ok(v) => old(view).rest().len() == 2 && v as int == be_int(old(view).rest()),
                Err(e) => old(view).rest().len() != 2 && e@ == len_err(self.column@, *self.ty),
            },
    {
        let r = self.map_view_len_err(view.read_i16_exact(len));
        assert(old(view).rest().len() == 2 ==> old(view).rest().take(2) =~= old(view).rest());
        r
    }

    fn read_i32_exact(&self, view: &mut BufferView<'_>, len: usize) -> (r: Result<i32, Error>)
        requires
            old(view).wf(),
            len == 4,
        ensures
            match r {
                Ok(v) => old(view).rest().len() == 4 && v as int == be_int(old(view).rest()),
                Err(e) => old(view).rest().len() != 4 && e@ == len_err(self.column@, *self.ty),
            },
    {
        let r = self.map_view_len_err(view.read_i32_exact(len));
        assert(old(view).rest().len() == 4 ==> old(view).rest().take(4) =~= old(view).rest());
        r
    }

    fn read_i64_exact(&self, view: &mut BufferView<'_>, len: usize) -> (r: Result<i64, Error>)
        requires
            old(view).wf(),
            len == 8,
        ensures
            match r {
                Ok(v) => old(view).rest().len() == 8 && v as int == be_int(old(view).rest()),
                Err(e) => old(view).rest().len() != 8 && e@ == len_err(self.column@, *self.ty),
            },
    {
        let r = self.map_view_len_err(view.read_i64_exact(len));
        assert(old(view).rest().len() == 8 ==> old(view).rest().take(8) =~= old(view).rest());
        r
    }

    fn read_u32_exact(&self, view: &mut BufferView<'_>, len: usize) -> (r: Result<u32, Error>)
        requires
            old(view).wf(),
            len == 4,
        ensures
            match r {
                Ok(v) => old(view).rest().len() == 4 && v as nat == be_nat(old(view).rest()),
                Err(e) => old(view).rest().len() != 4 && e@ == len_err(self.column@, *self.ty),
            },
    {
        let r = self.map_view_len_err(view.read_u32_exact(len));
        assert(old(view).rest().len() == 4 ==> old(view).rest().take(4) =~= old(view).rest());
        r
    }

    fn read_f32_exact(&self, view: &mut BufferView<'_>, len: usize) -> (r: Result<u32, Error>)
        requires
            old(view).wf(),
            len == 4,
        ensures
            match r {
                Ok(v) => old(view).rest().len() == 4 && v as nat == be_nat(old(view).rest()),
                Err(e) => old(view).rest().len() != 4 && e@ == len_err(self.column@, *self.ty),
            },
    {
        self.read_u32_exact(view, len)
    }

    fn read_f64_exact(&self, view: &mut BufferView<'_>, len: usize) -> (r: Result<u64, Error>)
        requires
            old(view).wf(),
            len == 8,
        ensures
            match r {
                Ok(v) => old(view).rest().len() == 8 && v as nat == be_nat(old(view).rest()),
                Err(e) => old(view).rest().len() != 8 && e@ == len_err(self.column@, *self.ty),
            },
    {
        let r = self.map_view_len_err(view.read_u64_exact(len));
        assert(old(view).rest().len() == 8 ==> old(view).rest().take(8) =~= old(view).rest());
        r
    }

    fn read_utf8_remaining(&self, view: &mut BufferView<'_>) -> (r: Result<String, Error>)
        requires
            old(view).wf(),
        ensures
            match spec_utf8(self.column@, *self.ty, old(view).rest()) {
                Ok(t) => r matches Ok(s) && s@ == t,
                Err(e) => r matches Err(x) && x@ == e,
            },
    {
        match view.read_utf8_remaining() {
            Ok(value) => Ok(value),
            Err(_) => Err(self.invalid_payload("invalid UTF-8")),
        }
    }
}

impl<'a> FieldDecoder<'a> {
    fn decode_scalar(&self, view: BufferView<'_>) -> (r: Result<PgValue, Error>)
        requires
            view.wf(),
        ensures
            value_result(r) == spec_decode_scalar(self.column@, *self.ty, view.rest()),
    {
        let mut view = view;
        match self.ty {
            PgType::Bool => self.decode_bool(&mut view),
            PgType::Bytea => {
                let b = view.read_remaining();
                Ok(PgValue::Bytea(pgtypes::PgBytea::new(vstd::slice::slice_to_vec(b))))
            },
            PgType::Char => {
                let v = self.read_i16_exact(&mut view, 2)?;
                Ok(PgValue::Char(pgtypes::PgChar::new(v)))
            },
            PgType::Int2 => {
                let v = self.read_i16_exact(&mut view, 2)?;
                Ok(PgValue::Int2(pgtypes::PgInt2::new(v)))
            },
            PgType::Int4 => {
                let v = self.read_i32_exact(&mut view, 4)?;
                Ok(PgValue::Int4(pgtypes::PgInt4::new(v)))
            },
            PgType::Int8 => {
                let v = self.read_i64_exact(&mut view, 8)?;
                Ok(PgValue::Int8(pgtypes::PgInt8::new(v)))
            },
            PgType::Float4 => {
                let v = self.read_f32_exact(&mut view, 4)?;
                Ok(PgValue::Float4(pgtypes::PgFloat4::from_bits(v)))
            },
            PgType::Float8 => {
                let v = self.read_f64_exact(&mut view, 8)?;
                Ok(PgValue::Float8(pgtypes::PgFloat8::from_bits(v)))
            },
            PgType::Text => {
                let t = self.read_utf8_remaining(&mut view)?;
                Ok(PgValue::Text(pgtypes::PgText { value: t }))
            },
            PgType::Varchar(max_len) => {
                let t = self.read_utf8_remaining(&mut view)?;
                let varchar = pgtypes::PgVarchar { value: t, max_len: *max_len };
                self.validate_varchar(&varchar)?;
                Ok(PgValue::Varchar(varchar))
            },
            PgType::Name => {
                let t = self.read_utf8_remaining(&mut view)?;
                Ok(PgValue::Name(pgtypes::PgName { value: t }))
            },
            PgType::Json => {
                let t = self.read_utf8_remaining(&mut view)?;
                Ok(PgValue::Json(pgtypes::PgJson { text: t }))
            },
            PgType::Jsonb => self.decode_jsonb(&mut view),
            PgType::Date => self.decode_date(&mut view),
            PgType::Time => {
                let v = self.read_i64_exact(&mut view, 8)?;
                Ok(PgValue::Time(pgtypes::PgTime::new(v)))
            },
            PgType::Timestamp => self.decode_timestamp(&mut view),
            PgType::Timestamptz => self.decode_timestamptz(&mut view),
            PgType::Timetz => self.decode_timetz(&mut view),
            PgType::Interval => self.decode_interval(&mut view),
            PgType::Numeric => {
                let b = view.read_remaining();
                let n = decode_numeric(b, self.column, self.ty)?;
                Ok(PgValue::Numeric(n))
            },
            PgType::Uuid => self.decode_uuid(&mut view),
            PgType::Money => {
                let v = self.read_i64_exact(&mut view, 8)?;
                Ok(PgValue::Money(pgtypes::PgMoney::new(v)))
            },
            PgType::Oid => {
                let v = self.read_u32_exact(&mut view, 4)?;
                Ok(PgValue::Oid(pgtypes::PgOid::new(v)))
            },
            PgType::Array(_) => Err(Error::UnsupportedType(self.ty.clone())),
        }
    }

    fn decode_bool(&self, view: &mut BufferView<'_>) -> (r: Result<PgValue, Error>)
        requires
            old(view).wf(),
            *self.ty == PgType::Bool,
        ensures
            value_result(r) == spec_decode_scalar(self.column@, *self.ty, old(view).rest()),
    {
        let byte = self.read_u8_exact(view, 1)?;
        if byte == 0 {
            Ok(PgValue::Bool(pgtypes::PgBool::new(false)))
        } else if byte == 1 {
            Ok(PgValue::Bool(pgtypes::PgBool::new(true)))
        } else {
            Err(self.invalid_payload("invalid bool payload byte"))
        }
    }

    fn decode_jsonb(&self, view: &mut BufferView<'_>) -> (r: Result<PgValue, Error>)
        requires
            old(view).wf(),
            *self.ty == PgType::Jsonb,
        ensures
            value_result(r) == spec_decode_scalar(self.column@, *self.ty, old(view).rest()),
    {
        // First byte is the jsonb format version; the rest must be UTF-8 JSON.
        self.ensure_min_remaining(view, 1, "jsonb payload too short")?;
        let ghost s = view.rest();
        let version = match view.read_u8() {
            Ok(v) => v,
            Err(e) => {
                return Err(e);
            },
        };
        assert(view.rest() =~= s.skip(1));
        let json = self.read_utf8_remaining(view)?;
        Ok(PgValue::Jsonb(pgtypes::PgJsonb { version, json }))
    }

    fn decode_date(&self, view: &mut BufferView<'_>) -> (r: Result<PgValue, Error>)
        requires
            old(view).wf(),
            *self.ty == PgType::Date,
        ensures
            value_result(r) == spec_decode_scalar(self.column@, *self.ty, old(view).rest()),
    {
        let pg_days = self.read_i32_exact(view, 4)?;
        Ok(PgValue::Date(pgtypes::PgDate::new(pg_days.wrapping_add(10957))))
    }

    fn decode_timestamp(&self, view: &mut BufferView<'_>) -> (r: Result<PgValue, Error>)
        requires
            old(view).wf(),
            *self.ty == PgType::Timestamp,
        ensures
            value_result(r) == spec_decode_scalar(self.column@, *self.ty, old(view).rest()),
    {
        let pg_micros = self.read_i64_exact(view, 8)?;
        Ok(PgValue::Timestamp(pgtypes::PgTimestamp::new(pg_micros.wrapping_add(946684800000000))))
    }

    fn decode_timestamptz(&self, view: &mut BufferView<'_>) -> (r: Result<PgValue, Error>)
        requires
            old(view).wf(),
            *self.ty == PgType::Timestamptz,
        ensures
            value_result(r) == spec_decode_scalar(self.column@, *self.ty, old(view).rest()),
    {
        let pg_micros = self.read_i64_exact(view, 8)?;
        Ok(
            PgValue::Timestamptz(
                pgtypes::PgTimestamptz::new(pg_micros.wrapping_add(946684800000000)),
            ),
        )
    }

    fn decode_timetz(&self, view: &mut BufferView<'_>) -> (r: Result<PgValue, Error>)
        requires
            old(view).wf(),
            *self.ty == PgType::Timetz,
        ensures
            value_result(r) == spec_decode_scalar(self.column@, *self.ty, old(view).rest()),
    {
        self.read_exact(view, 12)?;
        let ghost s = view.rest();
        let micros = match view.read_i64() {
            Ok(v) => v,
            Err(e) => {
                return Err(e);
            },
        };
        assert(view.rest() =~= s.skip(8));
        let tz = match view.read_i32() {
            Ok(v) => v,
            Err(e) => {
                return Err(e);
            },
        };
        assert(s.skip(8).take(4) =~= s.skip(8));
        Ok(PgValue::Timetz(pgtypes::PgTimetz::new(micros, tz)))
    }

    fn decode_interval(&self, view: &mut BufferView<'_>) -> (r: Result<PgValue, Error>)
        requires
            old(view).wf(),
            *self.ty == PgType::Interval,
        ensures
            value_result(r) == spec_decode_scalar(self.column@, *self.ty, old(view).rest()),
    {
        self.read_exact(view, 16)?;
        let ghost s = view.rest();
        let micros = match view.read_i64() {
            Ok(v) => v,
            Err(e) => {
                return Err(e);
            },
        };
        assert(view.rest() =~= s.skip(8));
        let days = match view.read_i32() {
            Ok(v) => v,
            Err(e) => {
                return Err(e);
            },
        };
        assert(view.rest() =~= s.skip(12));
        assert(s.skip(8).take(4) =~= s.subrange(8, 12));
        let months = match view.read_i32() {
            Ok(v) => v,
            Err(e) => {
                return Err(e);
            },
        };
        assert(s.skip(12).take(4) =~= s.skip(12));
        Ok(PgValue::Interval(pgtypes::PgInterval::new(micros, days, months)))
    }

    fn decode_uuid(&self, view: &mut BufferView<'_>) -> (r: Result<PgValue, Error>)
        requires
            old(view).wf(),
            *self.ty == PgType::Uuid,
        ensures
            value_result(r) == spec_decode_scalar(self.column@, *self.ty, old(view).rest()),
    {
        self.read_exact(view, 16)?;
        let b = view.read_remaining();
        let mut bytes = [0u8; 16];
        let mut i: usize = 0;
        while i < 16
            invariant
                b@.len() == 16,
                i <= 16,
                forall|j: int| 0 <= j < i ==> bytes@[j] == b@[j],
            decreases 16 - i,
        {
            bytes.set(i, b[i]);
            i = i + 1;
        }
        assert(bytes@ =~= b@);
        Ok(PgValue::Uuid(pgtypes::PgUuid::new(bytes)))
    }

    fn validate_varchar(&self, varchar: &pgtypes::PgVarchar) -> (r: Result<(), Error>)
        ensures
            (varchar.max_len is Some && varchar.value@.len() > varchar.max_len->0) ==> (r matches Err(
                e,
            ) && e@ == ip(self.column@, *self.ty, "varchar value exceeds max length"@)),
            !(varchar.max_len is Some && varchar.value@.len() > varchar.max_len->0) ==> r is Ok,
    {
        if let Some(max_len) = varchar.max_len {
            if char_count(&varchar.value) > max_len as usize {
                return Err(self.invalid_payload("varchar value exceeds max length"));
            }
        }
        Ok(())
    }
}

} // verus!
