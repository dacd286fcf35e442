use vstd::prelude::*;

verus! {

/// PostgreSQL `float4`, held as the IEEE 754 bit pattern that the wire carries.
#[derive(Debug, Clone, Copy, PartialEq, Eq, Hash)]
pub struct PgFloat4 {
    pub bits: u32,
}

impl PgFloat4 {
    pub fn from_bits(bits: u32) -> (r: Self)
        ensures
            r.bits == bits,
    {
        Self { bits }
    }
}

/// PostgreSQL `float8`, held as the IEEE 754 bit pattern that the wire carries.
#[derive(Debug, Clone, Copy, PartialEq, Eq, Hash)]
pub struct PgFloat8 {
    pub bits: u64,
}

impl PgFloat8 {
    pub fn from_bits(bits: u64) -> (r: Self)
        ensures
            r.bits == bits,
    {
        Self { bits }
    }
}

} // verus!
