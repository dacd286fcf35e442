use vstd::prelude::*;

verus! {

/// Variable-length character string (`varchar` / `character varying`).
#[derive(Debug, Clone, PartialEq, Eq, Hash)]
pub struct PgVarchar {
    pub value: String,
    /// Maximum character length from the column typmod (`varchar(n)`), or `None` if unlimited.
    pub max_len: Option<u32>,
}

impl PgVarchar {
    pub fn new(value: &str, max_len: Option<u32>) -> (r: Self)
        ensures
            r.value@ == value@,
            r.max_len == max_len,
    {
        Self { value: String::from_str(value), max_len }
    }
}

/// A `varchar` without a length limit.
impl From<String> for PgVarchar {
    fn from(value: String) -> (r: Self) {
        Self { value, max_len: None }
    }
}

impl vstd::std_specs::convert::FromSpecImpl<String> for PgVarchar {
    open spec fn obeys_from_spec() -> bool {
        true
    }

    open spec fn from_spec(value: String) -> Self {
        PgVarchar { value, max_len: None }
    }
}

} // verus!
