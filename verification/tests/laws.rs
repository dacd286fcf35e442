//! The properties that tie decoding and encoding together, on concrete values.

use pgpolymorph_ir::schema::{Column, PgType, Schema};
use pgpolymorph_ir::value::pgtypes;
use pgpolymorph_ir::value::{PgBatch, PgRow, PgValue};
use pgpolymorph_ir::{decode, encode, Decoder, Encoder, Error, COPY_MAGIC};

fn col(name: &str, ty: PgType, nullable: bool) -> Column {
    Column {
        name: name.to_string(),
        ty,
        nullable,
    }
}

fn wide_schema() -> Schema {
    Schema {
        columns: vec![
            col("b", PgType::Bool, true),
            col("raw", PgType::Bytea, true),
            col("c", PgType::Char, true),
            col("i2", PgType::Int2, true),
            col("i4", PgType::Int4, true),
            col("i8", PgType::Int8, true),
            col("f4", PgType::Float4, true),
            col("f8", PgType::Float8, true),
            col("t", PgType::Text, true),
            col("v", PgType::Varchar(Some(10)), true),
            col("n", PgType::Name, true),
            col("j", PgType::Json, true),
            col("jb", PgType::Jsonb, true),
            col("d", PgType::Date, true),
            col("tm", PgType::Time, true),
            col("ts", PgType::Timestamp, true),
            col("tstz", PgType::Timestamptz, true),
            col("ttz", PgType::Timetz, true),
            col("iv", PgType::Interval, true),
            col("num", PgType::Numeric, true),
            col("id", PgType::Uuid, true),
            col("m", PgType::Money, true),
            col("o", PgType::Oid, true),
            col("arr", PgType::Array(Box::new(PgType::Int4)), true),
            col("grid", PgType::Array(Box::new(PgType::Text)), true),
        ],
    }
}

fn dim(length: i32, lower_bound: i32) -> pgtypes::ArrayDimension {
    pgtypes::ArrayDimension {
        length,
        lower_bound,
    }
}

fn full_row() -> PgRow {
    PgRow {
        values: vec![
            PgValue::Bool(pgtypes::PgBool::new(true)),
            PgValue::Bytea(pgtypes::PgBytea::new(vec![0, 1, 2, 255])),
            PgValue::Char(pgtypes::PgChar::new(65)),
            PgValue::Int2(pgtypes::PgInt2::new(i16::MIN)),
            PgValue::Int4(pgtypes::PgInt4::new(i32::MAX)),
            PgValue::Int8(pgtypes::PgInt8::new(-42)),
            PgValue::Float4(pgtypes::PgFloat4::from_bits(1.5f32.to_bits())),
            PgValue::Float8(pgtypes::PgFloat8::from_bits((-2.25f64).to_bits())),
            PgValue::Text(pgtypes::PgText::new("héllo wörld")),
            PgValue::Varchar(pgtypes::PgVarchar::new("ünïcødé", Some(10))),
            PgValue::Name(pgtypes::PgName::new("pg_class")),
            PgValue::Json(pgtypes::PgJson::new("{\"a\": [1, 2]}")),
            PgValue::Jsonb(pgtypes::PgJsonb::new(1, "{\"k\": true}")),
            PgValue::Date(pgtypes::PgDate::new(19_000)),
            PgValue::Time(pgtypes::PgTime::new(3_600_000_000)),
            PgValue::Timestamp(pgtypes::PgTimestamp::new(-1)),
            PgValue::Timestamptz(pgtypes::PgTimestamptz::new(1_676_142_874_000_000)),
            PgValue::Timetz(pgtypes::PgTimetz::new(45_000_000, -3600)),
            PgValue::Interval(pgtypes::PgInterval::new(1, 2, 3)),
            PgValue::Numeric(pgtypes::PgNumeric::new(
                2,
                0,
                pgtypes::NumericSign::Negative,
                4,
                vec![12, 3400],
            )),
            PgValue::Uuid(pgtypes::PgUuid::new([7u8; 16])),
            PgValue::Money(pgtypes::PgMoney::new(12_499)),
            PgValue::Oid(pgtypes::PgOid::new(u32::MAX)),
            PgValue::Array(pgtypes::PgArray::new(
                PgType::Int4,
                vec![dim(3, 1)],
                vec![
                    PgValue::Int4(pgtypes::PgInt4::new(5)),
                    PgValue::Null,
                    PgValue::Int4(pgtypes::PgInt4::new(-5)),
                ],
            )),
            PgValue::Array(pgtypes::PgArray::new(
                PgType::Text,
                vec![dim(2, 0), dim(2, 1)],
                vec![
                    PgValue::Text(pgtypes::PgText::new("a")),
                    PgValue::Text(pgtypes::PgText::new("")),
                    PgValue::Null,
                    PgValue::Text(pgtypes::PgText::new("d")),
                ],
            )),
        ],
    }
}

fn null_row(n: usize) -> PgRow {
    let mut values = Vec::new();
    for _ in 0..n {
        values.push(PgValue::Null);
    }
    PgRow { values }
}

fn wide_batch() -> PgBatch {
    PgBatch {
        rows: vec![full_row(), null_row(25), full_row()],
    }
}

#[test]
fn decode_gives_back_what_encode_wrote_for_every_type() {
    let schema = wide_schema();
    let batch = wide_batch();
    let bytes = encode(&schema, &batch).unwrap();
    let again = decode(&schema, &bytes).unwrap();
    assert_eq!(batch, again);
}

#[test]
fn encoded_blob_is_reencoded_byte_for_byte() {
    let schema = wide_schema();
    let bytes = encode(&schema, &wide_batch()).unwrap();
    let decoded = decode(&schema, &bytes).unwrap();
    assert_eq!(encode(&schema, &decoded).unwrap(), bytes);
}

#[test]
fn decode_encode_decode_gives_the_same_rows() {
    let schema = Schema {
        columns: vec![col("x", PgType::Int4, true)],
    };
    let blob: Vec<u8> = [
        &b"PGCOPY\n\xff\r\n\x00"[..],
        &[0, 0, 0, 0, 0, 0, 0, 0],
        &[0, 1, 0, 0, 0, 4, 0, 0, 0, 7],
        &[0, 1, 0xff, 0xff, 0xff, 0xff],
        &[0xff, 0xff],
    ]
    .concat();
    let first = decode(&schema, &blob).unwrap();
    let bytes = encode(&schema, &first).unwrap();
    let second = decode(&schema, &bytes).unwrap();
    assert_eq!(first, second);
    assert_eq!(bytes, blob);
}

#[test]
fn reencoding_drops_what_the_encoder_never_writes() {
    // Header flags and a header extension are read and dropped: the blob is not in the
    // encoder's form, so re-encoding does not reproduce it, while the rows survive.
    let schema = Schema {
        columns: vec![col("x", PgType::Int4, false)],
    };
    let blob: Vec<u8> = [
        &b"PGCOPY\n\xff\r\n\x00"[..],
        &[0, 1, 0, 0],
        &[0, 0, 0, 2, 0xab, 0xcd],
        &[0, 1, 0, 0, 0, 4, 0, 0, 0, 9],
        &[0xff, 0xff],
    ]
    .concat();
    let batch = decode(&schema, &blob).unwrap();
    assert_eq!(
        batch.rows,
        vec![PgRow {
            values: vec![PgValue::Int4(pgtypes::PgInt4::new(9))]
        }]
    );
    let bytes = encode(&schema, &batch).unwrap();
    assert_ne!(bytes, blob);
    assert_eq!(decode(&schema, &bytes).unwrap(), batch);
}

#[test]
fn encoding_no_rows_gives_header_and_footer() {
    let schema = wide_schema();
    let bytes = encode(&schema, &PgBatch { rows: vec![] }).unwrap();
    let mut expected = COPY_MAGIC.to_vec();
    expected.extend_from_slice(&[0, 0, 0, 0, 0, 0, 0, 0, 0xff, 0xff]);
    assert_eq!(bytes, expected);
    assert_eq!(decode(&schema, &bytes).unwrap(), PgBatch { rows: vec![] });
}

#[test]
fn incremental_encoder_matches_encode() {
    let schema = wide_schema();
    let batch = wide_batch();
    let mut encoder = Encoder::new(&schema);
    for row in &batch.rows {
        encoder.write_row(row).unwrap();
    }
    assert_eq!(encoder.finish().unwrap(), encode(&schema, &batch).unwrap());
}

#[test]
fn encode_fails_with_the_first_failing_rows_error() {
    let schema = Schema {
        columns: vec![col("x", PgType::Int4, false)],
    };
    let good = PgRow {
        values: vec![PgValue::Int4(pgtypes::PgInt4::new(1))],
    };
    let mismatch = PgRow {
        values: vec![PgValue::Bool(pgtypes::PgBool::new(true))],
    };
    let null = PgRow {
        values: vec![PgValue::Null],
    };
    let batch = PgBatch {
        rows: vec![good, mismatch, null],
    };
    let err = encode(&schema, &batch).unwrap_err();
    assert_eq!(
        err,
        Error::TypeMismatch {
            column: "x".to_string(),
            expected: PgType::Int4,
            got: "Bool".to_string(),
        }
    );

    let mut encoder = Encoder::new(&schema);
    encoder.write_row(&batch.rows[0]).unwrap();
    assert_eq!(encoder.write_row(&batch.rows[1]).unwrap_err(), err);
}

#[test]
fn decoder_yields_the_rows_of_decode_then_none() {
    let schema = wide_schema();
    let bytes = encode(&schema, &wide_batch()).unwrap();
    let batch = decode(&schema, &bytes).unwrap();
    let mut decoder = Decoder::new(&schema, &bytes).unwrap();
    let mut rows = Vec::new();
    while let Some(row) = decoder.next() {
        rows.push(row.unwrap());
    }
    assert_eq!(rows, batch.rows);
    assert!(decoder.next().is_none());
    assert!(decoder.next().is_none());
}

#[test]
fn every_scalar_type_is_found_again_by_its_oid() {
    let types = vec![
        PgType::Bool,
        PgType::Bytea,
        PgType::Char,
        PgType::Int2,
        PgType::Int4,
        PgType::Int8,
        PgType::Text,
        PgType::Json,
        PgType::Jsonb,
        PgType::Float4,
        PgType::Float8,
        PgType::Date,
        PgType::Time,
        PgType::Timestamp,
        PgType::Timestamptz,
        PgType::Timetz,
        PgType::Interval,
        PgType::Numeric,
        PgType::Uuid,
        PgType::Money,
        PgType::Oid,
        PgType::Name,
    ];
    for ty in types {
        let oid = ty.oid().unwrap();
        assert_eq!(PgType::from_oid(oid), Some(ty));
    }
    assert_eq!(PgType::Varchar(Some(5)).oid(), None);
    assert_eq!(PgType::Varchar(None).oid(), None);
    assert_eq!(PgType::from_oid(1043), None);
    assert_eq!(PgType::Array(Box::new(PgType::Int4)).oid(), None);
}
