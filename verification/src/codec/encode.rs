//! Encode IR [`PgValue`]s into PostgreSQL binary field payloads.
use crate::binary::be::{int_be, nat_be, push_i16, push_i32, push_i64, push_u32, push_u64};
use crate::binary::text::{char_count, string_bytes};
use crate::binary::writer::{push_all, EncodedField};
use crate::codec::array::{encode_array, spec_encode_array, ArrayElementEncoding};
use crate::error::{ip, Error, ErrorV};
use crate::schema::PgType;
use crate::value::pgtypes::numeric::{encode_numeric, spec_encode_numeric};
use crate::value::{pg_value_variant_name, spec_variant_name, PgValue, ValueV};
use vstd::prelude::*;
use vstd::utf8::encode_utf8;

verus! {

/// A value of this variant may stand in a column of type `ty`; a `varchar` value must
/// carry the column's limit.
pub open spec fn spec_value_matches_type(v: ValueV, ty: PgType) -> bool {
    match (ty, v) {
        (PgType::Bool, ValueV::Bool(_)) => true,
        (PgType::Bytea, ValueV::Bytea(_)) => true,
        (PgType::Char, ValueV::Char(_)) => true,
        (PgType::Int2, ValueV::Int2(_)) => true,
        (PgType::Int4, ValueV::Int4(_)) => true,
        (PgType::Int8, ValueV::Int8(_)) => true,
        (PgType::Float4, ValueV::Float4(_)) => true,
        (PgType::Float8, ValueV::Float8(_)) => true,
        (PgType::Text, ValueV::Text(_)) => true,
        (PgType::Varchar(m), ValueV::Varchar(_, vm)) => vm == m,
        (PgType::Name, ValueV::Name(_)) => true,
        (PgType::Json, ValueV::Json(_)) => true,
        (PgType::Jsonb, ValueV::Jsonb(..)) => true,
        (PgType::Date, ValueV::Date(_)) => true,
        (PgType::Time, ValueV::Time(_)) => true,
        (PgType::Timestamp, ValueV::Timestamp(_)) => true,
        (PgType::Timestamptz, ValueV::Timestamptz(_)) => true,
        (PgType::Timetz, ValueV::Timetz(..)) => true,
        (PgType::Interval, ValueV::Interval(..)) => true,
        (PgType::Numeric, ValueV::Numeric(_)) => true,
        (PgType::Uuid, ValueV::Uuid(_)) => true,
        (PgType::Money, ValueV::Money(_)) => true,
        (PgType::Oid, ValueV::Oid(_)) => true,
        (PgType::Array(_), ValueV::Array(..)) => true,
        _ => false,
    }
}

/// The error for a value that cannot stand in column `column` of type `ty`.
pub open spec fn type_mismatch(column: Seq<char>, ty: PgType, v: ValueV) -> ErrorV {
    ErrorV::TypeMismatch { column, expected: ty, got: spec_variant_name(v) }
}

/// The IR counts days and microseconds from the Unix epoch; the wire counts from
/// 2000-01-01. The shift wraps around as the release build of plain subtraction does.
pub open spec fn spec_date_to_pg(days: i32) -> i32 {
    days.wrapping_sub(10957)
}

pub open spec fn spec_timestamp_to_pg(micros: i64) -> i64 {
    micros.wrapping_sub(946684800000000)
}

/// The payload of the non-NULL scalar value `v` in column `column` of type `ty`.
pub open spec fn spec_encode_scalar(column: Seq<char>, ty: PgType, v: ValueV) -> Result<Seq<u8>, ErrorV> {
    match (ty, v) {
        (PgType::Bool, ValueV::Bool(b)) => Ok(seq![if b { 1u8 } else { 0u8 }]),
        (PgType::Bytea, ValueV::Bytea(b)) => Ok(b),
        (PgType::Char, ValueV::Char(x)) => Ok(int_be(x as int, 2)),
        (PgType::Int2, ValueV::Int2(x)) => Ok(int_be(x as int, 2)),
        (PgType::Int4, ValueV::Int4(x)) => Ok(int_be(x as int, 4)),
        (PgType::Int8, ValueV::Int8(x)) => Ok(int_be(x as int, 8)),
        (PgType::Float4, ValueV::Float4(bits)) => Ok(nat_be(bits as nat, 4)),
        (PgType::Float8, ValueV::Float8(bits)) => Ok(nat_be(bits as nat, 8)),
        (PgType::Text, ValueV::Text(t)) => Ok(encode_utf8(t)),
        (PgType::Varchar(m), ValueV::Varchar(t, _)) => if m is Some && t.len() > m->0 {
            Err(ip(column, ty, "varchar value exceeds max length"@))
        } else {
            Ok(encode_utf8(t))
        },
        (PgType::Name, ValueV::Name(t)) => Ok(encode_utf8(t)),
        (PgType::Json, ValueV::Json(t)) => Ok(encode_utf8(t)),
        (PgType::Jsonb, ValueV::Jsonb(version, t)) => Ok(seq![version] + encode_utf8(t)),
        (PgType::Date, ValueV::Date(d)) => Ok(int_be(spec_date_to_pg(d) as int, 4)),
        (PgType::Time, ValueV::Time(m)) => Ok(int_be(m as int, 8)),
        (PgType::Timestamp, ValueV::Timestamp(m)) => Ok(int_be(spec_timestamp_to_pg(m) as int, 8)),
        (PgType::Timestamptz, ValueV::Timestamptz(m)) => Ok(
            int_be(spec_timestamp_to_pg(m) as int, 8),
        ),
        (PgType::Timetz, ValueV::Timetz(m, tz)) => Ok(int_be(m as int, 8) + int_be(tz as int, 4)),
        (PgType::Interval, ValueV::Interval(m, d, mo)) => Ok(
            int_be(m as int, 8) + int_be(d as int, 4) + int_be(mo as int, 4),
        ),
        (PgType::Numeric, ValueV::Numeric(n)) => Ok(spec_encode_numeric(n)),
        (PgType::Uuid, ValueV::Uuid(b)) => Ok(b),
        (PgType::Money, ValueV::Money(a)) => Ok(int_be(a as int, 8)),
        (PgType::Oid, ValueV::Oid(x)) => Ok(nat_be(x as nat, 4)),
        _ => Err(type_mismatch(column, ty, v)),
    }
}

/// Encoding an array element: NULL is always allowed.
pub open spec fn spec_encode_element(column: Seq<char>, ty: PgType, v: ValueV) -> Result<
    Option<Seq<u8>>,
    ErrorV,
> {
    if v is Null {
        Ok(None)
    } else if !spec_value_matches_type(v, ty) {
        Err(type_mismatch(column, ty, v))
    } else {
        match spec_encode_scalar(column, ty, v) {
            Ok(p) => Ok(Some(p)),
            Err(e) => Err(e),
        }
    }
}

/// Encoding the value `v` of column `column` of type `ty`: `None` for NULL, else the payload.
pub open spec fn spec_encode_field(column: Seq<char>, ty: PgType, nullable: bool, v: ValueV) -> Result<
    Option<Seq<u8>>,
    ErrorV,
> {
    if v is Null {
        if nullable {
            Ok(None)
        } else {
            Err(ErrorV::UnexpectedNull { column })
        }
    } else if !spec_value_matches_type(v, ty) {
        Err(type_mismatch(column, ty, v))
    } else if ty is Array {
        match spec_encode_array(column, ty, v) {
            Ok(p) => Ok(Some(p)),
            Err(e) => Err(e),
        }
    } else {
        match spec_encode_scalar(column, ty, v) {
            Ok(p) => Ok(Some(p)),
            Err(e) => Err(e),
        }
    }
}

/// The content of an encoded field.
pub open spec fn field_result(r: Result<EncodedField, Error>) -> Result<Option<Seq<u8>>, ErrorV> {
    match r {
        Ok(f) => Ok(f@),
        Err(e) => Err(e@),
    }
}

/// Encodes the values of one column.
pub struct FieldEncoder<'a> {
    pub column: &'a str,
    pub ty: &'a PgType,
    pub nullable: bool,
}

pub fn value_matches_type(value: &PgValue, ty: &PgType) -> (r: bool)
    ensures
        r == spec_value_matches_type(value@, *ty),
{
    match (ty, value) {
        (PgType::Bool, PgValue::Bool(_)) => true,
        (PgType::Bytea, PgValue::Bytea(_)) => true,
        (PgType::Char, PgValue::Char(_)) => true,
        (PgType::Int2, PgValue::Int2(_)) => true,
        (PgType::Int4, PgValue::Int4(_)) => true,
        (PgType::Int8, PgValue::Int8(_)) => true,
        (PgType::Float4, PgValue::Float4(_)) => true,
        (PgType::Float8, PgValue::Float8(_)) => true,
        (PgType::Text, PgValue::Text(_)) => true,
        (PgType::Varchar(schema_max), PgValue::Varchar(v)) => match (v.max_len, *schema_max) {
            (None, None) => true,
            (Some(a), Some(b)) => a == b,
            _ => false,
        },
        (PgType::Name, PgValue::Name(_)) => true,
        (PgType::Json, PgValue::Json(_)) => true,
        (PgType::Jsonb, PgValue::Jsonb(_)) => true,
        (PgType::Date, PgValue::Date(_)) => true,
        (PgType::Time, PgValue::Time(_)) => true,
        (PgType::Timestamp, PgValue::Timestamp(_)) => true,
        (PgType::Timestamptz, PgValue::Timestamptz(_)) => true,
        (PgType::Timetz, PgValue::Timetz(_)) => true,
        (PgType::Interval, PgValue::Interval(_)) => true,
        (PgType::Numeric, PgValue::Numeric(_)) => true,
        (PgType::Uuid, PgValue::Uuid(_)) => true,
        (PgType::Money, PgValue::Money(_)) => true,
        (PgType::Oid, PgValue::Oid(_)) => true,
        (PgType::Array(_), PgValue::Array(_)) => true,
        _ => false,
    }
}

impl<'a> FieldEncoder<'a> {
    pub fn new(column: &'a str, ty: &'a PgType, nullable: bool) -> (r: Self)
        ensures
            r.column == column,
            r.ty == ty,
            r.nullable == nullable,
    {
        Self { column, ty, nullable }
    }

    pub fn encode(&self, value: &PgValue) -> (r: Result<EncodedField, Error>)
        ensures
            field_result(r) == spec_encode_field(self.column@, *self.ty, self.nullable, value@),
    {
        if value.is_null() {
            if self.nullable {
                return Ok(EncodedField::Null);
            }
            return Err(Error::UnexpectedNull { column: String::from_str(self.column) });
        }
        if !value_matches_type(value, self.ty) {
            return Err(self.type_mismatch(value));
        }
        if let PgType::Array(_) = self.ty {
            let p = encode_array(self, value)?;
            return Ok(EncodedField::NonNull(p));
        }
        let p = self.encode_scalar(value)?;
        Ok(EncodedField::NonNull(p))
    }

    pub fn encode_array_element(&self, value: &PgValue) -> (r: Result<ArrayElementEncoding, Error>)
        ensures
            match spec_encode_element(self.column@, *self.ty, value@) {
                Ok(f) => r matches Ok(x) && x@ == f,
                Err(e) => r matches Err(x) && x@ == e,
            },
    {
        if value.is_null() {
            return Ok(ArrayElementEncoding::Null);
        }
        if !value_matches_type(value, self.ty) {
            return Err(self.type_mismatch(value));
        }
        let p = self.encode_scalar(value)?;
        Ok(ArrayElementEncoding::Payload(p))
    }

    pub fn type_mismatch(&self, value: &PgValue) -> (e: Error)
        ensures
            e@ == type_mismatch(self.column@, *self.ty, value@),
    {
        Error::TypeMismatch {
            column: String::from_str(self.column),
            expected: self.ty.clone(),
            got: String::from_str(pg_value_variant_name(value)),
        }
    }

    pub fn invalid_payload(&self, reason: &'static str) -> (e: Error)
        ensures
            e@ == ip(self.column@, *self.ty, reason@),
    {
        Error::InvalidPayload { column: String::from_str(self.column), ty: self.ty.clone(), reason }
    }

    fn encode_scalar(&self, value: &PgValue) -> (r: Result<Vec<u8>, Error>)
        ensures
            match spec_encode_scalar(self.column@, *self.ty, value@) {
                Ok(p) => r matches Ok(b) && b@ == p,
                Err(e) => r matches Err(x) && x@ == e,
            },
    {
        let mut buf: Vec<u8> = Vec::new();
        match (self.ty, value) {
            (PgType::Bool, PgValue::Bool(v)) => {
                buf.push(if v.value { 1u8 } else { 0u8 });
            },
            (PgType::Bytea, PgValue::Bytea(v)) => {
                push_all(&mut buf, v.bytes.as_slice());
            },
            (PgType::Char, PgValue::Char(v)) => {
                push_i16(&mut buf, v.value);
            },
            (PgType::Int2, PgValue::Int2(v)) => {
                push_i16(&mut buf, v.value);
            },
            (PgType::Int4, PgValue::Int4(v)) => {
                push_i32(&mut buf, v.value);
            },
            (PgType::Int8, PgValue::Int8(v)) => {
                push_i64(&mut buf, v.value);
            },
            (PgType::Float4, PgValue::Float4(v)) => {
                push_u32(&mut buf, v.bits);
            },
            (PgType::Float8, PgValue::Float8(v)) => {
                push_u64(&mut buf, v.bits);
            },
            (PgType::Text, PgValue::Text(v)) => {
                return Ok(string_bytes(&v.value));
            },
            (PgType::Varchar(schema_max), PgValue::Varchar(v)) => {
                if let Some(max_len) = *schema_max {
                    if char_count(&v.value) > max_len as usize {
                        return Err(self.invalid_payload("varchar value exceeds max length"));
                    }
                }
                return Ok(string_bytes(&v.value));
            },
            (PgType::Name, PgValue::Name(v)) => {
                return Ok(string_bytes(&v.value));
            },
            (PgType::Json, PgValue::Json(v)) => {
                return Ok(string_bytes(&v.text));
            },
            (PgType::Jsonb, PgValue::Jsonb(v)) => {
                buf.push(v.version);
                let json = string_bytes(&v.json);
                push_all(&mut buf, json.as_slice());
            },
            (PgType::Date, PgValue::Date(v)) => {
                push_i32(&mut buf, v.days.wrapping_sub(10957));
            },
            (PgType::Time, PgValue::Time(v)) => {
                push_i64(&mut buf, v.micros);
            },
            (PgType::Timestamp, PgValue::Timestamp(v)) => {
                push_i64(&mut buf, v.micros.wrapping_sub(946684800000000));
            },
            (PgType::Timestamptz, PgValue::Timestamptz(v)) => {
                push_i64(&mut buf, v.micros.wrapping_sub(946684800000000));
            },
            (PgType::Timetz, PgValue::Timetz(v)) => {
                push_i64(&mut buf, v.micros);
                push_i32(&mut buf, v.tz_offset_secs);
            },
            (PgType::Interval, PgValue::Interval(v)) => {
                push_i64(&mut buf, v.micros);
                push_i32(&mut buf, v.days);
                push_i32(&mut buf, v.months);
            },
            (PgType::Numeric, PgValue::Numeric(v)) => {
                return Ok(encode_numeric(v));
            },
            (PgType::Uuid, PgValue::Uuid(v)) => {
                push_all(&mut buf, v.bytes.as_slice());
            },
            (PgType::Money, PgValue::Money(v)) => {
                push_i64(&mut buf, v.amount);
            },
            (PgType::Oid, PgValue::Oid(v)) => {
                push_u32(&mut buf, v.value);
            },
            _ => {
                return Err(self.type_mismatch(value));
            },
        }
        assert(buf@ =~= spec_encode_scalar(self.column@, *self.ty, value@)->Ok_0);
        Ok(buf)
    }
}

} // verus!
