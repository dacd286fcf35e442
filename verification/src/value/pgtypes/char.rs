use vstd::prelude::*;

verus! {

/// PostgreSQL `char` (internal single-character type, not `varchar`).
///
/// Stored as `i16` because PostgreSQL binary format sends the internal `char` type
/// as a 2-byte big-endian integer, not as a Rust `char` or UTF-8 code point.
#[derive(Debug, Clone, Copy, PartialEq, Eq, Hash)]
pub struct PgChar {
    pub value: i16,
}

impl PgChar {
    pub fn new(value: i16) -> (r: Self)
        ensures
            r.value == value,
    {
        Self { value }
    }
}

impl From<i16> for PgChar {
    fn from(value: i16) -> (r: Self) {
        Self { value }
    }
}

impl vstd::std_specs::convert::FromSpecImpl<i16> for PgChar {
    open spec fn obeys_from_spec() -> bool {
        true
    }

    open spec fn from_spec(value: i16) -> Self {
        PgChar { value }
    }
}

} // verus!
