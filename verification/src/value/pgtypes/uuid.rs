use vstd::prelude::*;

verus! {

/// PostgreSQL `uuid`: sixteen bytes in wire order.
#[derive(Debug, Clone, Copy, PartialEq, Eq, Hash)]
pub struct PgUuid {
    pub bytes: [u8; 16],
}

impl PgUuid {
    pub fn new(bytes: [u8; 16]) -> (r: Self)
        ensures
            r.bytes == bytes,
    {
        Self { bytes }
    }
}

} // verus!
