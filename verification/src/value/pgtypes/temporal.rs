use vstd::prelude::*;

verus! {

/// Calendar date as days since the Unix epoch (1970-01-01).
#[derive(Debug, Clone, Copy, PartialEq, Eq, Hash)]
pub struct PgDate {
    pub days: i32,
}

impl PgDate {
    pub fn new(days: i32) -> (r: Self)
        ensures
            r.days == days,
    {
        Self { days }
    }
}

/// Time of day as microseconds since midnight (no date component).
#[derive(Debug, Clone, Copy, PartialEq, Eq, Hash)]
pub struct PgTime {
    pub micros: i64,
}

impl PgTime {
    pub fn new(micros: i64) -> (r: Self)
        ensures
            r.micros == micros,
    {
        Self { micros }
    }
}

/// Timestamp without time zone, as microseconds since the Unix epoch (UTC).
#[derive(Debug, Clone, Copy, PartialEq, Eq, Hash)]
pub struct PgTimestamp {
    pub micros: i64,
}

impl PgTimestamp {
    pub fn new(micros: i64) -> (r: Self)
        ensures
            r.micros == micros,
    {
        Self { micros }
    }
}

/// Timestamp with time zone, as microseconds since the Unix epoch (UTC).
#[derive(Debug, Clone, Copy, PartialEq, Eq, Hash)]
pub struct PgTimestamptz {
    pub micros: i64,
}

impl PgTimestamptz {
    pub fn new(micros: i64) -> (r: Self)
        ensures
            r.micros == micros,
    {
        Self { micros }
    }
}

/// Time of day with time-zone offset from UTC.
#[derive(Debug, Clone, Copy, PartialEq, Eq, Hash)]
pub struct PgTimetz {
    pub micros: i64,
    pub tz_offset_secs: i32,
}

impl PgTimetz {
    pub fn new(micros: i64, tz_offset_secs: i32) -> (r: Self)
        ensures
            r.micros == micros,
            r.tz_offset_secs == tz_offset_secs,
    {
        Self { micros, tz_offset_secs }
    }
}

} // verus!
