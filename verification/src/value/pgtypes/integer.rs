use vstd::prelude::*;

verus! {

/// PostgreSQL `int2`.
#[derive(Debug, Clone, Copy, PartialEq, Eq, Hash)]
pub struct PgInt2 {
    pub value: i16,
}

impl PgInt2 {
    pub fn new(value: i16) -> (r: Self)
        ensures
            r.value == value,
    {
        Self { value }
    }
}

/// PostgreSQL `int4`.
#[derive(Debug, Clone, Copy, PartialEq, Eq, Hash)]
pub struct PgInt4 {
    pub value: i32,
}

impl PgInt4 {
    pub fn new(value: i32) -> (r: Self)
        ensures
            r.value == value,
    {
        Self { value }
    }
}

/// PostgreSQL `int8`.
#[derive(Debug, Clone, Copy, PartialEq, Eq, Hash)]
pub struct PgInt8 {
    pub value: i64,
}

impl PgInt8 {
    pub fn new(value: i64) -> (r: Self)
        ensures
            r.value == value,
    {
        Self { value }
    }
}

impl From<i16> for PgInt2 {
    fn from(value: i16) -> (r: Self) {
        Self { value }
    }
}

impl vstd::std_specs::convert::FromSpecImpl<i16> for PgInt2 {
    open spec fn obeys_from_spec() -> bool {
        true
    }

    open spec fn from_spec(value: i16) -> Self {
        PgInt2 { value }
    }
}

impl From<i32> for PgInt4 {
    fn from(value: i32) -> (r: Self) {
        Self { value }
    }
}

impl vstd::std_specs::convert::FromSpecImpl<i32> for PgInt4 {
    open spec fn obeys_from_spec() -> bool {
        true
    }

    open spec fn from_spec(value: i32) -> Self {
        PgInt4 { value }
    }
}

impl From<i64> for PgInt8 {
    fn from(value: i64) -> (r: Self) {
        Self { value }
    }
}

impl vstd::std_specs::convert::FromSpecImpl<i64> for PgInt8 {
    open spec fn obeys_from_spec() -> bool {
        true
    }

    open spec fn from_spec(value: i64) -> Self {
        PgInt8 { value }
    }
}

} // verus!
