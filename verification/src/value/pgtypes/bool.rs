use vstd::prelude::*;

verus! {

/// PostgreSQL `bool`.
#[derive(Debug, Clone, Copy, PartialEq, Eq, Hash)]
pub struct PgBool {
    pub value: bool,
}

impl PgBool {
    pub fn new(value: bool) -> (r: Self)
        ensures
            r.value == value,
    {
        Self { value }
    }
}

impl From<bool> for PgBool {
    fn from(value: bool) -> (r: Self) {
        Self { value }
    }
}

impl vstd::std_specs::convert::FromSpecImpl<bool> for PgBool {
    open spec fn obeys_from_spec() -> bool {
        true
    }

    open spec fn from_spec(value: bool) -> Self {
        PgBool { value }
    }
}

} // verus!
