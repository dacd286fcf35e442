//! COPY binary format constants and PostgreSQL binary payload sizes.
//!
//! All multi-byte scalars are big-endian in PostgreSQL binary format.
use vstd::prelude::*;

verus! {

/// The eleven bytes that open every COPY binary blob: `PGCOPY\n\xFF\r\n\0`.
pub const COPY_MAGIC: &'static [u8; 11] = &[0x50, 0x47, 0x43, 0x4f, 0x50, 0x59, 0x0a, 0xff, 0x0d, 0x0a, 0x00];

/// The field count that marks the end of the tuples.
pub const FOOTER_SENTINEL: i16 = -1;

/// Days between PostgreSQL date epoch (2000-01-01) and Unix epoch (1970-01-01).
pub const PG_DATE_EPOCH_OFFSET_DAYS: i32 = 10957;

/// Microseconds between PostgreSQL timestamp epoch and Unix epoch.
pub const PG_TIMESTAMP_EPOCH_OFFSET_US: i64 = 946684800000000;

/// Width of a `uint8` / `bool` payload byte.
pub const U8_BYTES: usize = 1;

/// Width of an `int16` field (big-endian).
pub const I16_BYTES: usize = 2;

/// Width of an `int32` field (big-endian).
pub const I32_BYTES: usize = 4;

/// Width of an `int64` field (big-endian).
pub const I64_BYTES: usize = 8;

/// Width of an IEEE754 single-precision float payload.
pub const F32_BYTES: usize = 4;

/// Width of an IEEE754 double-precision float payload.
pub const F64_BYTES: usize = 8;

/// Width of the per-tuple `field_count` prefix and footer sentinel.
pub const COPY_FIELD_COUNT_BYTES: usize = 2;

/// Width of the per-field `int32` length prefix in a field envelope.
pub const COPY_FIELD_LEN_BYTES: usize = 4;

/// Field envelope length value meaning SQL NULL (no payload follows).
pub const COPY_FIELD_NULL: i32 = -1;

pub const BOOL_PAYLOAD_BYTES: usize = 1;
pub const CHAR_PAYLOAD_BYTES: usize = 2;
pub const INT2_PAYLOAD_BYTES: usize = 2;
pub const INT4_PAYLOAD_BYTES: usize = 4;
pub const INT8_PAYLOAD_BYTES: usize = 8;
pub const FLOAT4_PAYLOAD_BYTES: usize = 4;
pub const FLOAT8_PAYLOAD_BYTES: usize = 8;
pub const DATE_PAYLOAD_BYTES: usize = 4;
pub const TIME_PAYLOAD_BYTES: usize = 8;
pub const TIMESTAMP_PAYLOAD_BYTES: usize = 8;
pub const TIMESTAMPTZ_PAYLOAD_BYTES: usize = 8;
pub const TIMETZ_PAYLOAD_BYTES: usize = 12;
pub const INTERVAL_PAYLOAD_BYTES: usize = 16;
pub const OID_PAYLOAD_BYTES: usize = 4;
pub const MONEY_PAYLOAD_BYTES: usize = 8;
pub const UUID_PAYLOAD_BYTES: usize = 16;

/// Leading format-version byte in a `jsonb` payload.
pub const JSONB_VERSION_BYTES: usize = 1;

/// Header of a `numeric` payload: ndigits, weight, sign, dscale.
pub const NUMERIC_HEADER_BYTES: usize = 8;

/// Width of each base-10000 digit limb in a `numeric` payload.
pub const NUMERIC_DIGIT_BYTES: usize = 2;

/// Optional leading `int32` on multi-dimensional array payloads.
pub const ARRAY_TOTAL_LEN_BYTES: usize = 4;

/// Minimum valid dimension count.
pub const ARRAY_MIN_NDIM: i32 = 1;

/// `has_nulls` flag values in the array header.
pub const ARRAY_HAS_NULLS_FALSE: i32 = 0;

pub const ARRAY_HAS_NULLS_TRUE: i32 = 1;

/// Dimension count from which payloads carry an [`ARRAY_TOTAL_LEN_BYTES`] prefix.
pub const ARRAY_MULTI_DIM_NDIM: usize = 2;

/// The magic bytes as a sequence.
pub open spec fn spec_magic() -> Seq<u8> {
    seq![0x50u8, 0x47u8, 0x43u8, 0x4fu8, 0x50u8, 0x59u8, 0x0au8, 0xffu8, 0x0du8, 0x0au8, 0x00u8]
}

} // verus!
