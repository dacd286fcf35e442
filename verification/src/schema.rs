//! Schema types describing column names and PostgreSQL types.
use vstd::prelude::*;

verus! {

/// The PostgreSQL type of a column, or of the elements of an array column.
#[derive(Debug, Eq)]
pub enum PgType {
    Bool,
    Bytea,
    Char,
    Int2,
    Int4,
    Int8,
    Float4,
    Float8,
    Text,
    /// `varchar(n)`, with the character limit `n` from the column typmod, or unlimited.
    Varchar(Option<u32>),
    Json,
    Jsonb,
    Date,
    Time,
    Timestamp,
    Timestamptz,
    Timetz,
    Interval,
    Numeric,
    Uuid,
    Money,
    Oid,
    Name,
    Array(Box<PgType>),
}

impl Clone for PgType {
    fn clone(&self) -> (r: Self)
        ensures
            r == *self,
        decreases self,
    {
        match self {
            PgType::Bool => PgType::Bool,
            PgType::Bytea => PgType::Bytea,
            PgType::Char => PgType::Char,
            PgType::Int2 => PgType::Int2,
            PgType::Int4 => PgType::Int4,
            PgType::Int8 => PgType::Int8,
            PgType::Float4 => PgType::Float4,
            PgType::Float8 => PgType::Float8,
            PgType::Text => PgType::Text,
            PgType::Varchar(m) => PgType::Varchar(*m),
            PgType::Json => PgType::Json,
            PgType::Jsonb => PgType::Jsonb,
            PgType::Date => PgType::Date,
            PgType::Time => PgType::Time,
            PgType::Timestamp => PgType::Timestamp,
            PgType::Timestamptz => PgType::Timestamptz,
            PgType::Timetz => PgType::Timetz,
            PgType::Interval => PgType::Interval,
            PgType::Numeric => PgType::Numeric,
            PgType::Uuid => PgType::Uuid,
            PgType::Money => PgType::Money,
            PgType::Oid => PgType::Oid,
            PgType::Name => PgType::Name,
            PgType::Array(inner) => PgType::Array(Box::new((**inner).clone())),
        }
    }
}

impl PartialEq for PgType {
    fn eq(&self, other: &Self) -> (r: bool)
        decreases self,
    {
        match (self, other) {
            (PgType::Bool, PgType::Bool) => true,
            (PgType::Bytea, PgType::Bytea) => true,
            (PgType::Char, PgType::Char) => true,
            (PgType::Int2, PgType::Int2) => true,
            (PgType::Int4, PgType::Int4) => true,
            (PgType::Int8, PgType::Int8) => true,
            (PgType::Float4, PgType::Float4) => true,
            (PgType::Float8, PgType::Float8) => true,
            (PgType::Text, PgType::Text) => true,
            (PgType::Varchar(a), PgType::Varchar(b)) => match (a, b) {
                (None, None) => true,
                (Some(x), Some(y)) => *x == *y,
                _ => false,
            },
            (PgType::Json, PgType::Json) => true,
            (PgType::Jsonb, PgType::Jsonb) => true,
            (PgType::Date, PgType::Date) => true,
            (PgType::Time, PgType::Time) => true,
            (PgType::Timestamp, PgType::Timestamp) => true,
            (PgType::Timestamptz, PgType::Timestamptz) => true,
            (PgType::Timetz, PgType::Timetz) => true,
            (PgType::Interval, PgType::Interval) => true,
            (PgType::Numeric, PgType::Numeric) => true,
            (PgType::Uuid, PgType::Uuid) => true,
            (PgType::Money, PgType::Money) => true,
            (PgType::Oid, PgType::Oid) => true,
            (PgType::Name, PgType::Name) => true,
            (PgType::Array(a), PgType::Array(b)) => (**a).eq(&**b),
            _ => false,
        }
    }
}

impl vstd::std_specs::cmp::PartialEqSpecImpl for PgType {
    open spec fn obeys_eq_spec() -> bool {
        true
    }

    open spec fn eq_spec(&self, other: &PgType) -> bool {
        *self == *other
    }
}


/// The OID by which an array header names the element type; `varchar` and arrays have none here.
pub open spec fn spec_oid(t: PgType) -> Option<u32> {
    match t {
        PgType::Bool => Some(16),
        PgType::Bytea => Some(17),
        PgType::Char => Some(18),
        PgType::Int2 => Some(21),
        PgType::Int4 => Some(23),
        PgType::Int8 => Some(20),
        PgType::Text => Some(25),
        PgType::Varchar(_) => None,
        PgType::Json => Some(114),
        PgType::Jsonb => Some(3802),
        PgType::Float4 => Some(700),
        PgType::Float8 => Some(701),
        PgType::Date => Some(1082),
        PgType::Time => Some(1083),
        PgType::Timestamp => Some(1114),
        PgType::Timestamptz => Some(1184),
        PgType::Timetz => Some(1266),
        PgType::Interval => Some(1186),
        PgType::Numeric => Some(1700),
        PgType::Uuid => Some(2950),
        PgType::Money => Some(790),
        PgType::Oid => Some(26),
        PgType::Name => Some(19),
        PgType::Array(_) => None,
    }
}

/// The scalar type that PostgreSQL knows by `oid`, if this crate supports it.
pub open spec fn spec_from_oid(oid: u32) -> Option<PgType> {
    if oid == 16 {
        Some(PgType::Bool)
    } else if oid == 17 {
        Some(PgType::Bytea)
    } else if oid == 18 {
        Some(PgType::Char)
    } else if oid == 20 {
        Some(PgType::Int8)
    } else if oid == 21 {
        Some(PgType::Int2)
    } else if oid == 23 {
        Some(PgType::Int4)
    } else if oid == 25 {
        Some(PgType::Text)
    } else if oid == 114 {
        Some(PgType::Json)
    } else if oid == 3802 {
        Some(PgType::Jsonb)
    } else if oid == 700 {
        Some(PgType::Float4)
    } else if oid == 701 {
        Some(PgType::Float8)
    } else if oid == 1082 {
        Some(PgType::Date)
    } else if oid == 1083 {
        Some(PgType::Time)
    } else if oid == 1114 {
        Some(PgType::Timestamp)
    } else if oid == 1184 {
        Some(PgType::Timestamptz)
    } else if oid == 1266 {
        Some(PgType::Timetz)
    } else if oid == 1186 {
        Some(PgType::Interval)
    } else if oid == 1700 {
        Some(PgType::Numeric)
    } else if oid == 2950 {
        Some(PgType::Uuid)
    } else if oid == 790 {
        Some(PgType::Money)
    } else if oid == 26 {
        Some(PgType::Oid)
    } else if oid == 19 {
        Some(PgType::Name)
    } else {
        None
    }
}

impl PgType {
    pub fn oid(&self) -> (r: Option<u32>)
        ensures
            r == spec_oid(*self),
    {
        match self {
            PgType::Bool => Some(16),
            PgType::Bytea => Some(17),
            PgType::Char => Some(18),
            PgType::Int2 => Some(21),
            PgType::Int4 => Some(23),
            PgType::Int8 => Some(20),
            PgType::Text => Some(25),
            PgType::Varchar(_) => None,
            PgType::Json => Some(114),
            PgType::Jsonb => Some(3802),
            PgType::Float4 => Some(700),
            PgType::Float8 => Some(701),
            PgType::Date => Some(1082),
            PgType::Time => Some(1083),
            PgType::Timestamp => Some(1114),
            PgType::Timestamptz => Some(1184),
            PgType::Timetz => Some(1266),
            PgType::Interval => Some(1186),
            PgType::Numeric => Some(1700),
            PgType::Uuid => Some(2950),
            PgType::Money => Some(790),
            PgType::Oid => Some(26),
            PgType::Name => Some(19),
            PgType::Array(_) => None,
        }
    }

    pub fn from_oid(oid: u32) -> (r: Option<Self>)
        ensures
            r == spec_from_oid(oid),
    {
        match oid {
            16 => Some(PgType::Bool),
            17 => Some(PgType::Bytea),
            18 => Some(PgType::Char),
            20 => Some(PgType::Int8),
            21 => Some(PgType::Int2),
            23 => Some(PgType::Int4),
            25 => Some(PgType::Text),
            114 => Some(PgType::Json),
            3802 => Some(PgType::Jsonb),
            700 => Some(PgType::Float4),
            701 => Some(PgType::Float8),
            1082 => Some(PgType::Date),
            1083 => Some(PgType::Time),
            1114 => Some(PgType::Timestamp),
            1184 => Some(PgType::Timestamptz),
            1266 => Some(PgType::Timetz),
            1186 => Some(PgType::Interval),
            1700 => Some(PgType::Numeric),
            2950 => Some(PgType::Uuid),
            790 => Some(PgType::Money),
            26 => Some(PgType::Oid),
            19 => Some(PgType::Name),
            _ => None,
        }
    }
}

/// Every type that has an OID is found again by it.
pub proof fn lemma_from_oid_of_oid(t: PgType)
    requires
        spec_oid(t) is Some,
    ensures
        spec_from_oid(spec_oid(t).unwrap()) == Some(t),
{
}

/// Every OID that names a type is that type's OID.
pub proof fn lemma_oid_of_from_oid(oid: u32)
    requires
        spec_from_oid(oid) is Some,
    ensures
        spec_oid(spec_from_oid(oid).unwrap()) == Some(oid),
{
}

/// One column of a COPY table: its name, its type, and whether it may hold NULL.
#[derive(Debug, Clone, PartialEq, Eq)]
pub struct Column {
    pub name: String,
    pub ty: PgType,
    pub nullable: bool,
}

/// The columns of a COPY table, in order.
#[derive(Debug, Clone, PartialEq, Eq)]
pub struct Schema {
    pub columns: Vec<Column>,
}

} // verus!
