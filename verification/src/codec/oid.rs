//! PostgreSQL type OID helpers.
use crate::schema::{spec_from_oid, PgType};
use vstd::prelude::*;

verus! {

/// The scalar type that PostgreSQL knows by `oid`, if this crate supports it.
pub fn oid_to_pg_type(oid: u32) -> (r: Option<PgType>)
    ensures
        r == spec_from_oid(oid),
{
    PgType::from_oid(oid)
}

} // verus!
