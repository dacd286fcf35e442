use vstd::prelude::*;

verus! {

/// PostgreSQL `text`.
#[derive(Debug, Clone, PartialEq, Eq, Hash)]
pub struct PgText {
    pub value: String,
}

impl PgText {
    pub fn new(value: &str) -> (r: Self)
        ensures
            r.value@ == value@,
    {
        Self { value: String::from_str(value) }
    }
}

impl From<String> for PgText {
    fn from(value: String) -> (r: Self) {
        Self { value }
    }
}

impl vstd::std_specs::convert::FromSpecImpl<String> for PgText {
    open spec fn obeys_from_spec() -> bool {
        true
    }

    open spec fn from_spec(value: String) -> Self {
        PgText { value }
    }
}

} // verus!
