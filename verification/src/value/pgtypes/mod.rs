//! Typed intermediate representation for each PostgreSQL scalar and container type.
pub mod array;
pub mod bool;
pub mod bytea;
pub mod char;
pub mod float;
pub mod integer;
pub mod interval;
pub mod json;
pub mod money;
pub mod name;
pub mod numeric;
pub mod oid;
pub mod temporal;
pub mod text;
pub mod uuid;
pub mod varchar;

pub use array::{ArrayDimension, PgArray};
pub use bool::PgBool;
pub use bytea::PgBytea;
pub use char::PgChar;
pub use float::{PgFloat4, PgFloat8};
pub use integer::{PgInt2, PgInt4, PgInt8};
pub use interval::PgInterval;
pub use json::{PgJson, PgJsonb};
pub use money::PgMoney;
pub use name::PgName;
pub use numeric::{NumericSign, PgNumeric};
pub use oid::PgOid;
pub use temporal::{PgDate, PgTime, PgTimestamp, PgTimestamptz, PgTimetz};
pub use text::PgText;
pub use uuid::PgUuid;
pub use varchar::PgVarchar;
