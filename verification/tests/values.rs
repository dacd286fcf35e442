//! Payload formulas, every error that decoding and encoding report, and the IR helpers.

use pgpolymorph_ir::binary::buffer_view::BufferView;
use pgpolymorph_ir::binary::reader::PgBinaryReader;
use pgpolymorph_ir::codec::oid::oid_to_pg_type;
use pgpolymorph_ir::schema::{Column, PgType, Schema};
use pgpolymorph_ir::value::pgtypes;
use pgpolymorph_ir::value::{pg_value_variant_name, PgBatch, PgRow, PgValue};
use pgpolymorph_ir::{decode, encode, Error};

fn one_column(ty: PgType, nullable: bool) -> Schema {
    Schema {
        columns: vec![Column {
            name: "c".to_string(),
            ty,
            nullable,
        }],
    }
}

fn header() -> Vec<u8> {
    let mut b = b"PGCOPY\n\xff\r\n\x00".to_vec();
    b.extend_from_slice(&[0, 0, 0, 0, 0, 0, 0, 0]);
    b
}

/// A blob of one row holding the single field `field` (its envelope given whole).
fn one_field_blob(field: &[u8]) -> Vec<u8> {
    let mut b = header();
    b.extend_from_slice(&[0, 1]);
    b.extend_from_slice(field);
    b.extend_from_slice(&[0xff, 0xff]);
    b
}

fn payload_blob(payload: &[u8]) -> Vec<u8> {
    let mut field = (payload.len() as i32).to_be_bytes().to_vec();
    field.extend_from_slice(payload);
    one_field_blob(&field)
}

fn decode_one(ty: PgType, payload: &[u8]) -> Result<PgValue, Error> {
    let schema = one_column(ty, false);
    decode(&schema, &payload_blob(payload)).map(|mut b| b.rows.remove(0).values.remove(0))
}

fn encode_one(ty: PgType, value: PgValue) -> Result<Vec<u8>, Error> {
    let schema = one_column(ty, true);
    encode(&schema, &PgBatch {
        rows: vec![PgRow {
            values: vec![value],
        }],
    })
}

/// The payload that `encode` wrote for a one-row, one-column blob.
fn payload_of(blob: &[u8]) -> Vec<u8> {
    let len = i32::from_be_bytes([blob[21], blob[22], blob[23], blob[24]]) as usize;
    blob[25..25 + len].to_vec()
}

// ---- formulas ----------------------------------------------------------------------------

#[test]
fn dates_shift_by_the_2000_epoch() {
    assert_eq!(
        decode_one(PgType::Date, &0i32.to_be_bytes()).unwrap(),
        PgValue::Date(pgtypes::PgDate::new(10_957))
    );
    let blob = encode_one(PgType::Date, PgValue::Date(pgtypes::PgDate::new(0))).unwrap();
    assert_eq!(payload_of(&blob), (-10_957i32).to_be_bytes().to_vec());
}

#[test]
fn timestamps_shift_by_the_2000_epoch() {
    assert_eq!(
        decode_one(PgType::Timestamp, &0i64.to_be_bytes()).unwrap(),
        PgValue::Timestamp(pgtypes::PgTimestamp::new(946_684_800_000_000))
    );
    let blob = encode_one(
        PgType::Timestamptz,
        PgValue::Timestamptz(pgtypes::PgTimestamptz::new(946_684_800_000_001)),
    )
    .unwrap();
    assert_eq!(payload_of(&blob), 1i64.to_be_bytes().to_vec());
}

#[test]
fn numeric_payload_layout() {
    let value = PgValue::Numeric(pgtypes::PgNumeric::new(
        2,
        1,
        pgtypes::NumericSign::Negative,
        3,
        vec![1, 2345],
    ));
    let blob = encode_one(PgType::Numeric, value).unwrap();
    assert_eq!(
        payload_of(&blob),
        vec![0, 2, 0, 1, 0x40, 0x00, 0, 3, 0, 1, 0x09, 0x29]
    );
    assert_eq!(
        decode_one(PgType::Numeric, &[0, 0, 0, 0, 0xc0, 0, 0, 0]).unwrap(),
        PgValue::Numeric(pgtypes::PgNumeric::new(0, 0, pgtypes::NumericSign::NaN, 0, vec![]))
    );
    assert_eq!(
        decode_one(PgType::Numeric, &[0, 0]).unwrap(),
        PgValue::Numeric(pgtypes::PgNumeric::zero())
    );
}

#[test]
fn one_dimensional_array_payload_layout() {
    let value = PgValue::Array(pgtypes::PgArray::new(
        PgType::Int2,
        vec![pgtypes::ArrayDimension {
            length: 2,
            lower_bound: 1,
        }],
        vec![PgValue::Int2(pgtypes::PgInt2::new(7)), PgValue::Null],
    ));
    let blob = encode_one(PgType::Array(Box::new(PgType::Int2)), value).unwrap();
    assert_eq!(
        payload_of(&blob),
        vec![
            0, 0, 0, 1, // ndim
            0, 0, 0, 1, // has nulls
            0, 0, 0, 21, // int2
            0, 0, 0, 2, 0, 0, 0, 1, // length 2 from 1
            0, 0, 0, 2, 0, 7, // 7
            0xff, 0xff, 0xff, 0xff, // NULL
        ]
    );
}

#[test]
fn text_is_decoded_from_utf8() {
    assert_eq!(
        decode_one(PgType::Text, "grüße, 世界".as_bytes()).unwrap(),
        PgValue::Text(pgtypes::PgText::new("grüße, 世界"))
    );
    let blob = encode_one(PgType::Name, PgValue::Name(pgtypes::PgName::new("é"))).unwrap();
    assert_eq!(payload_of(&blob), vec![0xc3, 0xa9]);
}

#[test]
fn jsonb_keeps_its_version_byte() {
    let mut payload = vec![1u8];
    payload.extend_from_slice(b"{}");
    assert_eq!(
        decode_one(PgType::Jsonb, &payload).unwrap(),
        PgValue::Jsonb(pgtypes::PgJsonb::new(1, "{}"))
    );
}

// ---- decode errors -----------------------------------------------------------------------

#[test]
fn error_invalid_magic_on_a_short_wrong_prefix() {
    let schema = one_column(PgType::Int4, false);
    assert_eq!(decode(&schema, b"PGX").unwrap_err(), Error::InvalidMagic);
}

#[test]
fn error_unexpected_eof_on_a_short_right_prefix() {
    let schema = one_column(PgType::Int4, false);
    assert_eq!(
        decode(&schema, b"PGCOPY").unwrap_err(),
        Error::UnexpectedEof {
            expected: 11,
            available: 6
        }
    );
}

#[test]
fn error_invalid_header_on_negative_extension_length() {
    let schema = one_column(PgType::Int4, false);
    let mut blob = b"PGCOPY\n\xff\r\n\x00".to_vec();
    blob.extend_from_slice(&[0, 0, 0, 0, 0xff, 0xff, 0xff, 0xfe, 0xff, 0xff]);
    assert_eq!(
        decode(&schema, &blob).unwrap_err(),
        Error::InvalidHeader {
            reason: "negative extension length"
        }
    );
}

#[test]
fn error_field_too_large_on_a_negative_length() {
    let schema = one_column(PgType::Int4, false);
    let blob = one_field_blob(&(-2i32).to_be_bytes());
    assert_eq!(
        decode(&schema, &blob).unwrap_err(),
        Error::FieldTooLarge { len: -2 }
    );
}

#[test]
fn error_unexpected_null_on_decode() {
    let schema = one_column(PgType::Int4, false);
    let blob = one_field_blob(&(-1i32).to_be_bytes());
    assert_eq!(
        decode(&schema, &blob).unwrap_err(),
        Error::UnexpectedNull {
            column: "c".to_string()
        }
    );
}

#[test]
fn error_invalid_payload_on_a_bool_byte_that_is_not_zero_or_one() {
    assert_eq!(
        decode_one(PgType::Bool, &[2]).unwrap_err(),
        Error::InvalidPayload {
            column: "c".to_string(),
            ty: PgType::Bool,
            reason: "invalid bool payload byte"
        }
    );
}

#[test]
fn error_invalid_payload_on_a_wrong_length() {
    assert_eq!(
        decode_one(PgType::Int8, &[0, 0, 0, 1]).unwrap_err(),
        Error::InvalidPayload {
            column: "c".to_string(),
            ty: PgType::Int8,
            reason: "unexpected payload length"
        }
    );
}

#[test]
fn error_invalid_payload_on_invalid_utf8() {
    assert_eq!(
        decode_one(PgType::Text, &[0x66, 0xff, 0x6f]).unwrap_err(),
        Error::InvalidPayload {
            column: "c".to_string(),
            ty: PgType::Text,
            reason: "invalid UTF-8"
        }
    );
}

#[test]
fn error_invalid_payload_on_decoding_a_varchar_over_its_limit() {
    assert_eq!(
        decode_one(PgType::Varchar(Some(2)), b"abc").unwrap_err(),
        Error::InvalidPayload {
            column: "c".to_string(),
            ty: PgType::Varchar(Some(2)),
            reason: "varchar value exceeds max length"
        }
    );
}

fn array_header(ndim: i32, has_nulls: i32, oid: u32) -> Vec<u8> {
    let mut p = ndim.to_be_bytes().to_vec();
    p.extend_from_slice(&has_nulls.to_be_bytes());
    p.extend_from_slice(&oid.to_be_bytes());
    p
}

#[test]
fn error_array_element_oid_mismatch() {
    let mut p = array_header(1, 0, 25);
    p.extend_from_slice(&[0, 0, 0, 0, 0, 0, 0, 1]);
    assert_eq!(
        decode_one(PgType::Array(Box::new(PgType::Int4)), &p).unwrap_err(),
        Error::ArrayElementOidMismatch {
            column: "c".to_string(),
            expected: PgType::Int4,
            element_oid: 25
        }
    );
}

#[test]
fn error_unsupported_type_on_an_unknown_element_oid() {
    let mut p = array_header(1, 0, 9999);
    p.extend_from_slice(&[0, 0, 0, 0, 0, 0, 0, 1]);
    assert_eq!(
        decode_one(PgType::Array(Box::new(PgType::Int4)), &p).unwrap_err(),
        Error::UnsupportedType(PgType::Array(Box::new(PgType::Int4)))
    );
}

#[test]
fn error_invalid_array_has_nulls() {
    let mut p = array_header(1, 2, 23);
    p.extend_from_slice(&[0, 0, 0, 0, 0, 0, 0, 1]);
    assert_eq!(
        decode_one(PgType::Array(Box::new(PgType::Int4)), &p).unwrap_err(),
        Error::InvalidArrayHasNulls {
            column: "c".to_string(),
            got: 2
        }
    );
}

#[test]
fn error_invalid_payload_on_zero_dimensions() {
    let mut p = array_header(0, 0, 23);
    p.extend_from_slice(&[0, 0, 0, 0]);
    assert_eq!(
        decode_one(PgType::Array(Box::new(PgType::Int4)), &p).unwrap_err(),
        Error::InvalidPayload {
            column: "c".to_string(),
            ty: PgType::Array(Box::new(PgType::Int4)),
            reason: "array ndim must be at least 1"
        }
    );
}

#[test]
fn error_too_many_columns_on_decode() {
    let mut columns = Vec::new();
    for _ in 0..32_768 {
        columns.push(Column {
            name: "c".to_string(),
            ty: PgType::Int4,
            nullable: true,
        });
    }
    let schema = Schema { columns };
    let mut blob = header();
    blob.extend_from_slice(&[0xff, 0xff]);
    assert_eq!(
        decode(&schema, &blob).unwrap_err(),
        Error::TooManyColumns {
            max: i16::MAX,
            got: 32_768
        }
    );
}

#[test]
fn error_invalid_footer_when_a_tuple_stands_where_the_footer_is_asked_for() {
    let schema = one_column(PgType::Int4, false);
    let blob = payload_blob(&5i32.to_be_bytes());
    let mut reader = PgBinaryReader::new(&schema, BufferView::new(&blob)).unwrap();
    assert_eq!(reader.ensure_finished().unwrap_err(), Error::InvalidFooter);
}

#[test]
fn error_invalid_payload_on_a_negative_dimension_length() {
    let mut p = array_header(1, 0, 23);
    p.extend_from_slice(&(-1i32).to_be_bytes());
    p.extend_from_slice(&1i32.to_be_bytes());
    assert_eq!(
        decode_one(PgType::Array(Box::new(PgType::Int4)), &p).unwrap_err(),
        Error::InvalidPayload {
            column: "c".to_string(),
            ty: PgType::Array(Box::new(PgType::Int4)),
            reason: "negative array dimension length"
        }
    );
}

#[test]
fn error_invalid_payload_on_an_element_count_overflow() {
    let mut body = array_header(3, 0, 23);
    for _ in 0..3 {
        body.extend_from_slice(&i32::MAX.to_be_bytes());
        body.extend_from_slice(&1i32.to_be_bytes());
    }
    let mut p = (body.len() as i32).to_be_bytes().to_vec();
    p.extend_from_slice(&body);
    assert_eq!(
        decode_one(PgType::Array(Box::new(PgType::Int4)), &p).unwrap_err(),
        Error::InvalidPayload {
            column: "c".to_string(),
            ty: PgType::Array(Box::new(PgType::Int4)),
            reason: "array element count overflow"
        }
    );
}

#[test]
fn error_invalid_payload_on_a_short_array_payload() {
    assert_eq!(
        decode_one(PgType::Array(Box::new(PgType::Int4)), &[0, 0, 1]).unwrap_err(),
        Error::InvalidPayload {
            column: "c".to_string(),
            ty: PgType::Array(Box::new(PgType::Int4)),
            reason: "array payload too short"
        }
    );
}

#[test]
fn error_unexpected_eof_inside_an_array() {
    let mut p = array_header(1, 0, 23);
    p.extend_from_slice(&[0, 0, 0, 1, 0, 0, 0, 1]);
    p.extend_from_slice(&[0, 0, 0, 4, 0, 0]);
    assert_eq!(
        decode_one(PgType::Array(Box::new(PgType::Int4)), &p).unwrap_err(),
        Error::UnexpectedEof {
            expected: 4,
            available: 2
        }
    );
}

#[test]
fn error_invalid_payload_on_an_empty_jsonb() {
    assert_eq!(
        decode_one(PgType::Jsonb, &[]).unwrap_err(),
        Error::InvalidPayload {
            column: "c".to_string(),
            ty: PgType::Jsonb,
            reason: "jsonb payload too short"
        }
    );
}

#[test]
fn error_invalid_payload_on_a_bad_numeric() {
    let bad_sign = [0, 0, 0, 0, 0x12, 0x34, 0, 0];
    assert_eq!(
        decode_one(PgType::Numeric, &bad_sign).unwrap_err(),
        Error::InvalidPayload {
            column: "c".to_string(),
            ty: PgType::Numeric,
            reason: "invalid numeric sign"
        }
    );
    let extra = [0, 0, 0, 0, 0, 0, 0, 0, 0, 1];
    assert_eq!(
        decode_one(PgType::Numeric, &extra).unwrap_err(),
        Error::InvalidPayload {
            column: "c".to_string(),
            ty: PgType::Numeric,
            reason: "numeric payload length mismatch"
        }
    );
    assert_eq!(
        decode_one(PgType::Numeric, &[0, 1]).unwrap_err(),
        Error::InvalidPayload {
            column: "c".to_string(),
            ty: PgType::Numeric,
            reason: "numeric payload too short"
        }
    );
    assert!(matches!(
        decode_one(PgType::Numeric, &[0, 2, 0, 0, 0, 0, 0, 0, 0, 1]).unwrap_err(),
        Error::UnexpectedEof { .. }
    ));
}

// ---- encode errors -----------------------------------------------------------------------

#[test]
fn error_schema_row_length_mismatch_on_encode() {
    let schema = one_column(PgType::Int4, false);
    let err = encode(&schema, &PgBatch {
        rows: vec![PgRow { values: vec![] }],
    })
    .unwrap_err();
    assert_eq!(
        err,
        Error::SchemaRowLengthMismatch {
            expected: 1,
            got: 0
        }
    );
}

#[test]
fn error_invalid_payload_on_encoding_an_array_whose_count_does_not_match() {
    let value = PgValue::Array(pgtypes::PgArray::new(
        PgType::Int4,
        vec![pgtypes::ArrayDimension {
            length: 2,
            lower_bound: 1,
        }],
        vec![PgValue::Int4(pgtypes::PgInt4::new(1))],
    ));
    assert_eq!(
        encode_one(PgType::Array(Box::new(PgType::Int4)), value).unwrap_err(),
        Error::InvalidPayload {
            column: "c".to_string(),
            ty: PgType::Array(Box::new(PgType::Int4)),
            reason: "array element count does not match dimensions"
        }
    );
}

#[test]
fn error_type_mismatch_on_an_array_element() {
    let value = PgValue::Array(pgtypes::PgArray::new(
        PgType::Int4,
        vec![pgtypes::ArrayDimension {
            length: 1,
            lower_bound: 1,
        }],
        vec![PgValue::Bool(pgtypes::PgBool::new(false))],
    ));
    assert_eq!(
        encode_one(PgType::Array(Box::new(PgType::Int4)), value).unwrap_err(),
        Error::TypeMismatch {
            column: "c".to_string(),
            expected: PgType::Int4,
            got: "Bool".to_string()
        }
    );
}

#[test]
fn error_invalid_payload_on_encoding_an_array_without_dimensions() {
    let value = PgValue::Array(pgtypes::PgArray::new(PgType::Int4, vec![], vec![]));
    assert_eq!(
        encode_one(PgType::Array(Box::new(PgType::Int4)), value).unwrap_err(),
        Error::InvalidPayload {
            column: "c".to_string(),
            ty: PgType::Array(Box::new(PgType::Int4)),
            reason: "array must have at least one dimension"
        }
    );
}

#[test]
fn error_unsupported_type_on_encoding_a_nested_array() {
    let inner = PgType::Array(Box::new(PgType::Int4));
    let value = PgValue::Array(pgtypes::PgArray::new(
        inner.clone(),
        vec![pgtypes::ArrayDimension {
            length: 0,
            lower_bound: 1,
        }],
        vec![],
    ));
    assert_eq!(
        encode_one(PgType::Array(Box::new(inner.clone())), value).unwrap_err(),
        Error::UnsupportedType(PgType::Array(Box::new(inner)))
    );
}

#[test]
fn error_unexpected_null_on_encode_names_the_column() {
    let schema = one_column(PgType::Text, false);
    let err = encode(&schema, &PgBatch {
        rows: vec![PgRow {
            values: vec![PgValue::Null],
        }],
    })
    .unwrap_err();
    assert_eq!(
        err,
        Error::UnexpectedNull {
            column: "c".to_string()
        }
    );
}

#[test]
fn varchar_arrays_are_refused_both_ways() {
    let ty = PgType::Array(Box::new(PgType::Varchar(Some(5))));
    let value = PgValue::Array(pgtypes::PgArray::new(
        PgType::Varchar(Some(5)),
        vec![pgtypes::ArrayDimension {
            length: 1,
            lower_bound: 1,
        }],
        vec![PgValue::Varchar(pgtypes::PgVarchar::new("ab", Some(5)))],
    ));
    assert_eq!(
        encode_one(ty.clone(), value).unwrap_err(),
        Error::UnsupportedType(ty.clone())
    );
    let mut p = array_header(1, 0, 1043);
    p.extend_from_slice(&[0, 0, 0, 0, 0, 0, 0, 1]);
    assert_eq!(decode_one(ty.clone(), &p).unwrap_err(), Error::UnsupportedType(ty));
}

// ---- helpers -----------------------------------------------------------------------------

#[test]
fn getters_pick_their_own_variant() {
    let v = PgValue::Int4(pgtypes::PgInt4::new(3));
    assert_eq!(v.as_int4(), Some(&pgtypes::PgInt4::new(3)));
    assert_eq!(v.as_int8(), None);
    assert!(!v.is_null());
    assert!(PgValue::Null.is_null());
    let t = PgValue::Text(pgtypes::PgText::new("x"));
    assert_eq!(t.as_text().map(|x| x.value.as_str()), Some("x"));
    assert_eq!(t.as_bool(), None);
}

#[test]
fn variant_names() {
    assert_eq!(pg_value_variant_name(&PgValue::Null), "Null");
    assert_eq!(
        pg_value_variant_name(&PgValue::Money(pgtypes::PgMoney::new(1))),
        "Money"
    );
    assert_eq!(
        pg_value_variant_name(&PgValue::Timestamptz(pgtypes::PgTimestamptz::new(1))),
        "Timestamptz"
    );
}

#[test]
fn conversions_into_ir_types() {
    assert_eq!(pgtypes::PgBool::from(true), pgtypes::PgBool::new(true));
    assert_eq!(pgtypes::PgInt8::from(-9i64), pgtypes::PgInt8::new(-9));
    assert_eq!(pgtypes::PgOid::from(26u32), pgtypes::PgOid::new(26));
    assert_eq!(
        pgtypes::PgText::from("t".to_string()),
        pgtypes::PgText::new("t")
    );
    assert_eq!(
        pgtypes::PgVarchar::from("v".to_string()),
        pgtypes::PgVarchar::new("v", None)
    );
    assert_eq!(
        pgtypes::PgBytea::from(vec![1u8, 2]),
        pgtypes::PgBytea::new(vec![1, 2])
    );
}

#[test]
fn oid_lookup() {
    assert_eq!(oid_to_pg_type(23), Some(PgType::Int4));
    assert_eq!(oid_to_pg_type(1043), None);
    assert_eq!(oid_to_pg_type(0), None);
    assert_eq!(PgType::Uuid.oid(), Some(2950));
}
