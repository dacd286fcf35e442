//! Intermediate representation of decoded PostgreSQL values.
pub mod pgtypes;

pub use pgtypes::{ArrayDimension, NumericSign};

use crate::schema::PgType;
use vstd::prelude::*;

verus! {

/// A single decoded column value. Each PostgreSQL type maps to a dedicated IR struct.
#[derive(Debug, PartialEq)]
pub enum PgValue {
    Null,
    Bool(pgtypes::PgBool),
    Bytea(pgtypes::PgBytea),
    Char(pgtypes::PgChar),
    Int2(pgtypes::PgInt2),
    Int4(pgtypes::PgInt4),
    Int8(pgtypes::PgInt8),
    Float4(pgtypes::PgFloat4),
    Float8(pgtypes::PgFloat8),
    Text(pgtypes::PgText),
    Varchar(pgtypes::PgVarchar),
    Name(pgtypes::PgName),
    Json(pgtypes::PgJson),
    Jsonb(pgtypes::PgJsonb),
    Date(pgtypes::PgDate),
    Time(pgtypes::PgTime),
    Timestamp(pgtypes::PgTimestamp),
    Timestamptz(pgtypes::PgTimestamptz),
    Timetz(pgtypes::PgTimetz),
    Interval(pgtypes::PgInterval),
    Numeric(pgtypes::PgNumeric),
    Uuid(pgtypes::PgUuid),
    Money(pgtypes::PgMoney),
    Oid(pgtypes::PgOid),
    Array(pgtypes::PgArray),
}

/// One row of values, in column order.
#[derive(Debug, PartialEq)]
pub struct PgRow {
    pub values: Vec<PgValue>,
}

/// The rows of a COPY blob, in order.
#[derive(Debug, PartialEq)]
pub struct PgBatch {
    pub rows: Vec<PgRow>,
}

/// The mathematical content of a `numeric`.
pub struct NumericV {
    pub ndigits: i16,
    pub weight: i16,
    pub sign: NumericSign,
    pub dscale: i16,
    pub digits: Seq<i16>,
}

/// The mathematical content of a [`PgValue`]: strings as characters, byte buffers as sequences.
pub enum ValueV {
    Null,
    Bool(bool),
    Bytea(Seq<u8>),
    Char(i16),
    Int2(i16),
    Int4(i32),
    Int8(i64),
    Float4(u32),
    Float8(u64),
    Text(Seq<char>),
    Varchar(Seq<char>, Option<u32>),
    Name(Seq<char>),
    Json(Seq<char>),
    Jsonb(u8, Seq<char>),
    Date(i32),
    Time(i64),
    Timestamp(i64),
    Timestamptz(i64),
    Timetz(i64, i32),
    Interval(i64, i32, i32),
    Numeric(NumericV),
    Uuid(Seq<u8>),
    Money(i64),
    Oid(u32),
    Array(PgType, Seq<ArrayDimension>, Seq<ValueV>),
}

impl View for pgtypes::PgNumeric {
    type V = NumericV;

    open spec fn view(&self) -> NumericV {
        NumericV {
            ndigits: self.ndigits,
            weight: self.weight,
            sign: self.sign,
            dscale: self.dscale,
            digits: self.digits@,
        }
    }
}

/// The mathematical content of a value.
pub open spec fn value_view(v: PgValue) -> ValueV
    decreases v,
{
    match v {
        PgValue::Null => ValueV::Null,
        PgValue::Bool(x) => ValueV::Bool(x.value),
        PgValue::Bytea(x) => ValueV::Bytea(x.bytes@),
        PgValue::Char(x) => ValueV::Char(x.value),
        PgValue::Int2(x) => ValueV::Int2(x.value),
        PgValue::Int4(x) => ValueV::Int4(x.value),
        PgValue::Int8(x) => ValueV::Int8(x.value),
        PgValue::Float4(x) => ValueV::Float4(x.bits),
        PgValue::Float8(x) => ValueV::Float8(x.bits),
        PgValue::Text(x) => ValueV::Text(x.value@),
        PgValue::Varchar(x) => ValueV::Varchar(x.value@, x.max_len),
        PgValue::Name(x) => ValueV::Name(x.value@),
        PgValue::Json(x) => ValueV::Json(x.text@),
        PgValue::Jsonb(x) => ValueV::Jsonb(x.version, x.json@),
        PgValue::Date(x) => ValueV::Date(x.days),
        PgValue::Time(x) => ValueV::Time(x.micros),
        PgValue::Timestamp(x) => ValueV::Timestamp(x.micros),
        PgValue::Timestamptz(x) => ValueV::Timestamptz(x.micros),
        PgValue::Timetz(x) => ValueV::Timetz(x.micros, x.tz_offset_secs),
        PgValue::Interval(x) => ValueV::Interval(x.micros, x.days, x.months),
        PgValue::Numeric(x) => ValueV::Numeric(x@),
        PgValue::Uuid(x) => ValueV::Uuid(x.bytes@),
        PgValue::Money(x) => ValueV::Money(x.amount),
        PgValue::Oid(x) => ValueV::Oid(x.value),
        PgValue::Array(a) => ValueV::Array(
            a.element_type,
            a.dimensions@,
            Seq::new(
                a.elements@.len(),
                |i: int|
                    if 0 <= i < a.elements@.len() {
                        value_view(a.elements@[i])
                    } else {
                        ValueV::Null
                    },
            ),
        ),
    }
}

/// The content of an array value: its element type, dimensions and element contents.
pub proof fn lemma_array_view(a: pgtypes::PgArray)
    ensures
        PgValue::Array(a)@ == ValueV::Array(
            a.element_type,
            a.dimensions@,
            a.elements@.map_values(|v: PgValue| v@),
        ),
{
    let w = value_view(PgValue::Array(a));
    assert(w is Array);
    assert(w->Array_2.len() == a.elements@.len());
    assert forall|i: int| 0 <= i < a.elements@.len() implies w->Array_2[i] == value_view(
        a.elements@[i],
    ) by {}
    assert(w->Array_2 =~= a.elements@.map_values(|v: PgValue| v@));
}

impl View for PgValue {
    type V = ValueV;

    open spec fn view(&self) -> ValueV {
        value_view(*self)
    }
}

impl View for PgRow {
    type V = Seq<ValueV>;

    open spec fn view(&self) -> Seq<ValueV> {
        self.values@.map_values(|v: PgValue| v@)
    }
}

impl View for PgBatch {
    type V = Seq<Seq<ValueV>>;

    open spec fn view(&self) -> Seq<Seq<ValueV>> {
        self.rows@.map_values(|r: PgRow| r@)
    }
}

/// The content of the result of a decode.
pub open spec fn value_result(r: Result<PgValue, crate::error::Error>) -> Result<ValueV, crate::error::ErrorV> {
    match r {
        Ok(v) => Ok(v@),
        Err(e) => Err(e@),
    }
}

/// The name of a value's variant, as type-mismatch errors report it.
pub open spec fn spec_variant_name(v: ValueV) -> Seq<char> {
    match v {
        ValueV::Null => "Null"@,
        ValueV::Bool(_) => "Bool"@,
        ValueV::Bytea(_) => "Bytea"@,
        ValueV::Char(_) => "Char"@,
        ValueV::Int2(_) => "Int2"@,
        ValueV::Int4(_) => "Int4"@,
        ValueV::Int8(_) => "Int8"@,
        ValueV::Float4(_) => "Float4"@,
        ValueV::Float8(_) => "Float8"@,
        ValueV::Text(_) => "Text"@,
        ValueV::Varchar(..) => "Varchar"@,
        ValueV::Name(_) => "Name"@,
        ValueV::Json(_) => "Json"@,
        ValueV::Jsonb(..) => "Jsonb"@,
        ValueV::Date(_) => "Date"@,
        ValueV::Time(_) => "Time"@,
        ValueV::Timestamp(_) => "Timestamp"@,
        ValueV::Timestamptz(_) => "Timestamptz"@,
        ValueV::Timetz(..) => "Timetz"@,
        ValueV::Interval(..) => "Interval"@,
        ValueV::Numeric(_) => "Numeric"@,
        ValueV::Uuid(_) => "Uuid"@,
        ValueV::Money(_) => "Money"@,
        ValueV::Oid(_) => "Oid"@,
        ValueV::Array(..) => "Array"@,
    }
}

pub fn pg_value_variant_name(value: &PgValue) -> (r: &'static str)
    ensures
        r@ == spec_variant_name(value@),
{
    match value {
        PgValue::Null => "Null",
        PgValue::Bool(_) => "Bool",
        PgValue::Bytea(_) => "Bytea",
        PgValue::Char(_) => "Char",
        PgValue::Int2(_) => "Int2",
        PgValue::Int4(_) => "Int4",
        PgValue::Int8(_) => "Int8",
        PgValue::Float4(_) => "Float4",
        PgValue::Float8(_) => "Float8",
        PgValue::Text(_) => "Text",
        PgValue::Varchar(_) => "Varchar",
        PgValue::Name(_) => "Name",
        PgValue::Json(_) => "Json",
        PgValue::Jsonb(_) => "Jsonb",
        PgValue::Date(_) => "Date",
        PgValue::Time(_) => "Time",
        PgValue::Timestamp(_) => "Timestamp",
        PgValue::Timestamptz(_) => "Timestamptz",
        PgValue::Timetz(_) => "Timetz",
        PgValue::Interval(_) => "Interval",
        PgValue::Numeric(_) => "Numeric",
        PgValue::Uuid(_) => "Uuid",
        PgValue::Money(_) => "Money",
        PgValue::Oid(_) => "Oid",
        PgValue::Array(_) => "Array",
    }
}

impl PgValue {
    pub fn is_null(&self) -> (r: bool)
        ensures
            r == (*self is Null),
    {
        match self {
            PgValue::Null => true,
            _ => false,
        }
    }

    pub fn as_bool(&self) -> (r: Option<&pgtypes::PgBool>)
        ensures
            match self {
                PgValue::Bool(x) => r == Some(x),
                _ => r is None,
            },
    {
        match self {
            PgValue::Bool(x) => Some(x),
            _ => None,
        }
    }

    pub fn as_bytea(&self) -> (r: Option<&pgtypes::PgBytea>)
        ensures
            match self {
                PgValue::Bytea(x) => r == Some(x),
                _ => r is None,
            },
    {
        match self {
            PgValue::Bytea(x) => Some(x),
            _ => None,
        }
    }

    pub fn as_char(&self) -> (r: Option<&pgtypes::PgChar>)
        ensures
            match self {
                PgValue::Char(x) => r == Some(x),
                _ => r is None,
            },
    {
        match self {
            PgValue::Char(x) => Some(x),
            _ => None,
        }
    }

    pub fn as_int2(&self) -> (r: Option<&pgtypes::PgInt2>)
        ensures
            match self {
                PgValue::Int2(x) => r == Some(x),
                _ => r is None,
            },
    {
        match self {
            PgValue::Int2(x) => Some(x),
            _ => None,
        }
    }

    pub fn as_int4(&self) -> (r: Option<&pgtypes::PgInt4>)
        ensures
            match self {
                PgValue::Int4(x) => r == Some(x),
                _ => r is None,
            },
    {
        match self {
            PgValue::Int4(x) => Some(x),
            _ => None,
        }
    }

    pub fn as_int8(&self) -> (r: Option<&pgtypes::PgInt8>)
        ensures
            match self {
                PgValue::Int8(x) => r == Some(x),
                _ => r is None,
            },
    {
        match self {
            PgValue::Int8(x) => Some(x),
            _ => None,
        }
    }

    pub fn as_float4(&self) -> (r: Option<&pgtypes::PgFloat4>)
        ensures
            match self {
                PgValue::Float4(x) => r == Some(x),
                _ => r is None,
            },
    {
        match self {
            PgValue::Float4(x) => Some(x),
            _ => None,
        }
    }

    pub fn as_float8(&self) -> (r: Option<&pgtypes::PgFloat8>)
        ensures
            match self {
                PgValue::Float8(x) => r == Some(x),
                _ => r is None,
            },
    {
        match self {
            PgValue::Float8(x) => Some(x),
            _ => None,
        }
    }

    pub fn as_text(&self) -> (r: Option<&pgtypes::PgText>)
        ensures
            match self {
                PgValue::Text(x) => r == Some(x),
                _ => r is None,
            },
    {
        match self {
            PgValue::Text(x) => Some(x),
            _ => None,
        }
    }

    pub fn as_varchar(&self) -> (r: Option<&pgtypes::PgVarchar>)
        ensures
            match self {
                PgValue::Varchar(x) => r == Some(x),
                _ => r is None,
            },
    {
        match self {
            PgValue::Varchar(x) => Some(x),
            _ => None,
        }
    }

    pub fn as_name(&self) -> (r: Option<&pgtypes::PgName>)
        ensures
            match self {
                PgValue::Name(x) => r == Some(x),
                _ => r is None,
            },
    {
        match self {
            PgValue::Name(x) => Some(x),
            _ => None,
        }
    }

    pub fn as_json(&self) -> (r: Option<&pgtypes::PgJson>)
        ensures
            match self {
                PgValue::Json(x) => r == Some(x),
                _ => r is None,
            },
    {
        match self {
            PgValue::Json(x) => Some(x),
            _ => None,
        }
    }

    pub fn as_jsonb(&self) -> (r: Option<&pgtypes::PgJsonb>)
        ensures
            match self {
                PgValue::Jsonb(x) => r == Some(x),
                _ => r is None,
            },
    {
        match self {
            PgValue::Jsonb(x) => Some(x),
            _ => None,
        }
    }

    pub fn as_date(&self) -> (r: Option<&pgtypes::PgDate>)
        ensures
            match self {
                PgValue::Date(x) => r == Some(x),
                _ => r is None,
            },
    {
        match self {
            PgValue::Date(x) => Some(x),
            _ => None,
        }
    }

    pub fn as_time(&self) -> (r: Option<&pgtypes::PgTime>)
        ensures
            match self {
                PgValue::Time(x) => r == Some(x),
                _ => r is None,
            },
    {
        match self {
            PgValue::Time(x) => Some(x),
            _ => None,
        }
    }

    pub fn as_timestamp(&self) -> (r: Option<&pgtypes::PgTimestamp>)
        ensures
            match self {
                PgValue::Timestamp(x) => r == Some(x),
                _ => r is None,
            },
    {
        match self {
            PgValue::Timestamp(x) => Some(x),
            _ => None,
        }
    }

    pub fn as_timestamptz(&self) -> (r: Option<&pgtypes::PgTimestamptz>)
        ensures
            match self {
                PgValue::Timestamptz(x) => r == Some(x),
                _ => r is None,
            },
    {
        match self {
            PgValue::Timestamptz(x) => Some(x),
            _ => None,
        }
    }

    pub fn as_timetz(&self) -> (r: Option<&pgtypes::PgTimetz>)
        ensures
            match self {
                PgValue::Timetz(x) => r == Some(x),
                _ => r is None,
            },
    {
        match self {
            PgValue::Timetz(x) => Some(x),
            _ => None,
        }
    }

    pub fn as_interval(&self) -> (r: Option<&pgtypes::PgInterval>)
        ensures
            match self {
                PgValue::Interval(x) => r == Some(x),
                _ => r is None,
            },
    {
        match self {
            PgValue::Interval(x) => Some(x),
            _ => None,
        }
    }

    pub fn as_numeric(&self) -> (r: Option<&pgtypes::PgNumeric>)
        ensures
            match self {
                PgValue::Numeric(x) => r == Some(x),
                _ => r is None,
            },
    {
        match self {
            PgValue::Numeric(x) => Some(x),
            _ => None,
        }
    }

    pub fn as_uuid(&self) -> (r: Option<&pgtypes::PgUuid>)
        ensures
            match self {
                PgValue::Uuid(x) => r == Some(x),
                _ => r is None,
            },
    {
        match self {
            PgValue::Uuid(x) => Some(x),
            _ => None,
        }
    }

    pub fn as_money(&self) -> (r: Option<&pgtypes::PgMoney>)
        ensures
            match self {
                PgValue::Money(x) => r == Some(x),
                _ => r is None,
            },
    {
        match self {
            PgValue::Money(x) => Some(x),
            _ => None,
        }
    }

    pub fn as_oid(&self) -> (r: Option<&pgtypes::PgOid>)
        ensures
            match self {
                PgValue::Oid(x) => r == Some(x),
                _ => r is None,
            },
    {
        match self {
            PgValue::Oid(x) => Some(x),
            _ => None,
        }
    }

    pub fn as_array(&self) -> (r: Option<&pgtypes::PgArray>)
        ensures
            match self {
                PgValue::Array(x) => r == Some(x),
                _ => r is None,
            },
    {
        match self {
            PgValue::Array(x) => Some(x),
            _ => None,
        }
    }
}

} // verus!
