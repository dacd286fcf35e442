use vstd::prelude::*;

verus! {

/// Fixed-scale currency amount in the smallest currency unit (PostgreSQL `money`).
#[derive(Debug, Clone, Copy, PartialEq, Eq, Hash)]
pub struct PgMoney {
    pub amount: i64,
}

impl PgMoney {
    pub fn new(amount: i64) -> (r: Self)
        ensures
            r.amount == amount,
    {
        Self { amount }
    }
}

impl From<i64> for PgMoney {
    fn from(amount: i64) -> (r: Self) {
        Self { amount }
    }
}

impl vstd::std_specs::convert::FromSpecImpl<i64> for PgMoney {
    open spec fn obeys_from_spec() -> bool {
        true
    }

    open spec fn from_spec(amount: i64) -> Self {
        PgMoney { amount }
    }
}

} // verus!
