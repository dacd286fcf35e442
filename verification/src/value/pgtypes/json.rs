use vstd::prelude::*;

verus! {

/// UTF-8 JSON text (`json` type, not pre-parsed).
#[derive(Debug, Clone, PartialEq, Eq, Hash)]
pub struct PgJson {
    pub text: String,
}

impl PgJson {
    pub fn new(text: &str) -> (r: Self)
        ensures
            r.text@ == text@,
    {
        Self { text: String::from_str(text) }
    }
}

/// Binary JSON (`jsonb` type): the wire format version byte and the JSON text after it.
#[derive(Debug, Clone, PartialEq, Eq, Hash)]
pub struct PgJsonb {
    pub version: u8,
    pub json: String,
}

impl PgJsonb {
    pub fn new(version: u8, json: &str) -> (r: Self)
        ensures
            r.version == version,
            r.json@ == json@,
    {
        Self { version, json: String::from_str(json) }
    }
}

} // verus!
