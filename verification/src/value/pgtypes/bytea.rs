use vstd::prelude::*;

verus! {

/// PostgreSQL `bytea`: raw bytes.
#[derive(Debug, Clone, PartialEq, Eq, Hash)]
pub struct PgBytea {
    pub bytes: Vec<u8>,
}

impl PgBytea {
    pub fn new(bytes: Vec<u8>) -> (r: Self)
        ensures
            r.bytes@ == bytes@,
    {
        Self { bytes }
    }
}

impl From<Vec<u8>> for PgBytea {
    fn from(bytes: Vec<u8>) -> (r: Self) {
        Self { bytes }
    }
}

impl vstd::std_specs::convert::FromSpecImpl<Vec<u8>> for PgBytea {
    open spec fn obeys_from_spec() -> bool {
        true
    }

    open spec fn from_spec(bytes: Vec<u8>) -> Self {
        PgBytea { bytes }
    }
}

} // verus!
