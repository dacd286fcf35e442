use vstd::prelude::*;

verus! {

/// PostgreSQL system identifier type (`name`).
#[derive(Debug, Clone, PartialEq, Eq, Hash)]
pub struct PgName {
    pub value: String,
}

impl PgName {
    pub fn new(value: &str) -> (r: Self)
        ensures
            r.value@ == value@,
    {
        Self { value: String::from_str(value) }
    }
}

impl From<String> for PgName {
    fn from(value: String) -> (r: Self) {
        Self { value }
    }
}

impl vstd::std_specs::convert::FromSpecImpl<String> for PgName {
    open spec fn obeys_from_spec() -> bool {
        true
    }

    open spec fn from_spec(value: String) -> Self {
        PgName { value }
    }
}

} // verus!
