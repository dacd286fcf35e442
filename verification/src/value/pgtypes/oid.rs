use vstd::prelude::*;

verus! {

/// PostgreSQL object identifier (`oid`).
#[derive(Debug, Clone, Copy, PartialEq, Eq, Hash)]
pub struct PgOid {
    pub value: u32,
}

impl PgOid {
    pub fn new(value: u32) -> (r: Self)
        ensures
            r.value == value,
    {
        Self { value }
    }
}

impl From<u32> for PgOid {
    fn from(value: u32) -> (r: Self) {
        Self { value }
    }
}

impl vstd::std_specs::convert::FromSpecImpl<u32> for PgOid {
    open spec fn obeys_from_spec() -> bool {
        true
    }

    open spec fn from_spec(value: u32) -> Self {
        PgOid { value }
    }
}

} // verus!
