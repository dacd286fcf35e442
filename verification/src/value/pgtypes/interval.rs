use vstd::prelude::*;

verus! {

/// PostgreSQL `interval`: microseconds, days and months, kept apart as on the wire.
#[derive(Debug, Clone, Copy, PartialEq, Eq, Hash)]
pub struct PgInterval {
    pub micros: i64,
    pub days: i32,
    pub months: i32,
}

impl PgInterval {
    pub fn new(micros: i64, days: i32, months: i32) -> (r: Self)
        ensures
            r.micros == micros,
            r.days == days,
            r.months == months,
    {
        Self { micros, days, months }
    }
}

} // verus!
