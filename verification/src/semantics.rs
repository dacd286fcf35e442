//! What single operations mean, stated against PostgreSQL's own conventions: the type OIDs
//! of its catalogue, the optional total-length prefix of array payloads, and the character
//! limit of `varchar`.
use crate::binary::be::{be_int, int_be};
use crate::codec::array::{spec_decode_array, spec_strip_total_len};
use crate::codec::decode::spec_decode_scalar;
use crate::codec::encode::spec_encode_scalar;
use crate::error::ErrorV;
use crate::laws::lemma_int_roundtrip;
use crate::schema::{spec_from_oid, spec_oid, PgType};
use crate::value::ValueV;
use vstd::prelude::*;
use vstd::utf8::{decode_utf8, encode_utf8, valid_utf8};

verus! {

/// The OIDs are those of PostgreSQL's `pg_type` catalogue, one per scalar type, both ways;
/// `varchar` and arrays have none here, and no other OID names a type.
pub proof fn lemma_oid_catalogue()
    ensures
        spec_oid(PgType::Bool) == Some(16u32),
        spec_oid(PgType::Bytea) == Some(17u32),
        spec_oid(PgType::Char) == Some(18u32),
        spec_oid(PgType::Int2) == Some(21u32),
        spec_oid(PgType::Int4) == Some(23u32),
        spec_oid(PgType::Int8) == Some(20u32),
        spec_oid(PgType::Text) == Some(25u32),
        spec_oid(PgType::Json) == Some(114u32),
        spec_oid(PgType::Jsonb) == Some(3802u32),
        spec_oid(PgType::Float4) == Some(700u32),
        spec_oid(PgType::Float8) == Some(701u32),
        spec_oid(PgType::Date) == Some(1082u32),
        spec_oid(PgType::Time) == Some(1083u32),
        spec_oid(PgType::Timestamp) == Some(1114u32),
        spec_oid(PgType::Timestamptz) == Some(1184u32),
        spec_oid(PgType::Timetz) == Some(1266u32),
        spec_oid(PgType::Interval) == Some(1186u32),
        spec_oid(PgType::Numeric) == Some(1700u32),
        spec_oid(PgType::Uuid) == Some(2950u32),
        spec_oid(PgType::Money) == Some(790u32),
        spec_oid(PgType::Oid) == Some(26u32),
        spec_oid(PgType::Name) == Some(19u32),
        forall|m: Option<u32>| #[trigger] spec_oid(PgType::Varchar(m)) is None,
        forall|t: Box<PgType>| #[trigger] spec_oid(PgType::Array(t)) is None,
        spec_from_oid(16) == Some(PgType::Bool),
        spec_from_oid(17) == Some(PgType::Bytea),
        spec_from_oid(18) == Some(PgType::Char),
        spec_from_oid(21) == Some(PgType::Int2),
        spec_from_oid(23) == Some(PgType::Int4),
        spec_from_oid(20) == Some(PgType::Int8),
        spec_from_oid(25) == Some(PgType::Text),
        spec_from_oid(114) == Some(PgType::Json),
        spec_from_oid(3802) == Some(PgType::Jsonb),
        spec_from_oid(700) == Some(PgType::Float4),
        spec_from_oid(701) == Some(PgType::Float8),
        spec_from_oid(1082) == Some(PgType::Date),
        spec_from_oid(1083) == Some(PgType::Time),
        spec_from_oid(1114) == Some(PgType::Timestamp),
        spec_from_oid(1184) == Some(PgType::Timestamptz),
        spec_from_oid(1266) == Some(PgType::Timetz),
        spec_from_oid(1186) == Some(PgType::Interval),
        spec_from_oid(1700) == Some(PgType::Numeric),
        spec_from_oid(2950) == Some(PgType::Uuid),
        spec_from_oid(790) == Some(PgType::Money),
        spec_from_oid(26) == Some(PgType::Oid),
        spec_from_oid(19) == Some(PgType::Name),
        forall|o: u32|
            #[trigger] spec_from_oid(o) is Some ==> spec_oid(spec_from_oid(o)->Some_0) == Some(o),
{
}

/// An array payload decodes the same with its total-length prefix as without it. Left out
/// are the bodies whose leading dimension count equals their length less four: those read
/// as carrying a prefix of their own.
pub proof fn lemma_array_prefix_optional(column: Seq<char>, ty: PgType, b: Seq<u8>)
    requires
        4 <= b.len() <= i32::MAX,
        be_int(b.take(4)) >= 1,
        be_int(b.take(4)) != b.len() - 4,
    ensures
        spec_decode_array(column, ty, int_be(b.len() as int, 4) + b) == spec_decode_array(
            column,
            ty,
            b,
        ),
{
    let pre = int_be(b.len() as int, 4);
    lemma_int_roundtrip(b.len() as int, 4);
    let p = pre + b;
    assert(p.take(4) =~= pre);
    assert(p.skip(4) =~= b);
    assert(spec_strip_total_len(p) == b);
    assert(spec_strip_total_len(b) == b);
}

/// `varchar` text comes through decoding unchanged; the limit, when the column has one,
/// refuses exactly the texts with more characters than it allows, and an unlimited column
/// refuses none.
pub proof fn lemma_varchar_limit(column: Seq<char>, m: Option<u32>, p: Seq<u8>)
    requires
        valid_utf8(p),
    ensures
        m is None ==> spec_decode_scalar(column, PgType::Varchar(m), p) == Ok::<ValueV, ErrorV>(
            ValueV::Varchar(decode_utf8(p), m),
        ),
        m matches Some(k) ==> (spec_decode_scalar(column, PgType::Varchar(m), p) is Ok
            <==> decode_utf8(p).len() <= k),
        spec_decode_scalar(column, PgType::Varchar(m), p) is Ok ==> spec_decode_scalar(
            column,
            PgType::Varchar(m),
            p,
        ) == Ok::<ValueV, ErrorV>(ValueV::Varchar(decode_utf8(p), m)),
{
}

/// Encoding `varchar` text writes its UTF-8 bytes; the column's limit, when it has one,
/// refuses exactly the texts with more characters than it allows, and an unlimited column
/// refuses none.
pub proof fn lemma_varchar_encode_limit(
    column: Seq<char>,
    m: Option<u32>,
    t: Seq<char>,
    vm: Option<u32>,
)
    ensures
        m is None ==> spec_encode_scalar(column, PgType::Varchar(m), ValueV::Varchar(t, vm))
            == Ok::<Seq<u8>, ErrorV>(encode_utf8(t)),
        m matches Some(k) ==> (spec_encode_scalar(
            column,
            PgType::Varchar(m),
            ValueV::Varchar(t, vm),
        ) is Ok <==> t.len() <= k),
        spec_encode_scalar(column, PgType::Varchar(m), ValueV::Varchar(t, vm)) is Ok
            ==> spec_encode_scalar(column, PgType::Varchar(m), ValueV::Varchar(t, vm)) == Ok::<
            Seq<u8>,
            ErrorV,
        >(encode_utf8(t)),
{
}

} // verus!
