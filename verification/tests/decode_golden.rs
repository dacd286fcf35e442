//! Decode COPY binary blobs as PostgreSQL writes them and check the IR; re-encode them and
//! check the bytes; drive the incremental `Decoder` and `Encoder` over the same blobs.
//!
//! Each blob is spelled out byte by byte below, one column per blob, as `COPY ... TO STDOUT
//! (FORMAT binary)` writes it.

use pgpolymorph_ir::schema::{Column, PgType, Schema};
use pgpolymorph_ir::value::pgtypes;
use pgpolymorph_ir::value::{PgBatch, PgRow, PgValue};
use pgpolymorph_ir::{decode, encode, Decoder, Encoder, COPY_MAGIC};

const TIMESTAMP_US: i64 = 1_676_142_874 * 1_000_000;
const TIME_US: i64 = (24 * 60 * 60 - 1) * 1_000_000;
const DATE32: i32 = (1 << 16) - 1;
const DURATION_US: i64 = 60 * 1_000_000;
const STRING: &str = "some data! ";
const BINARY: &[u8] = b"some data! ";
const UUID: [u8; 16] = [
    0xa0, 0xa1, 0xa2, 0xa3, 0xa4, 0xa5, 0xa6, 0xa7, 0xb0, 0xb1, 0xb2, 0xb3, 0xb4, 0xb5, 0xb6,
    0xb7,
];

/// Days and microseconds from 1970-01-01 to 2000-01-01, the wire's epoch.
const PG_EPOCH_DAYS: i32 = 10_957;
const PG_EPOCH_US: i64 = 946_684_800_000_000;

// ---- blobs -------------------------------------------------------------------------------

fn header() -> Vec<u8> {
    let mut b = b"PGCOPY\n\xff\r\n\x00".to_vec();
    b.extend_from_slice(&[0, 0, 0, 0, 0, 0, 0, 0]);
    b
}

fn envelope(out: &mut Vec<u8>, cell: &Option<Vec<u8>>) {
    match cell {
        None => out.extend_from_slice(&(-1i32).to_be_bytes()),
        Some(p) => {
            out.extend_from_slice(&(p.len() as i32).to_be_bytes());
            out.extend_from_slice(p);
        }
    }
}

/// A blob of one-column tuples, one per cell.
fn blob(cells: Vec<Option<Vec<u8>>>) -> Vec<u8> {
    let mut b = header();
    for cell in &cells {
        b.extend_from_slice(&1i16.to_be_bytes());
        envelope(&mut b, cell);
    }
    b.extend_from_slice(&[0xff, 0xff]);
    b
}

fn array_payload(oid: u32, dims: &[(i32, i32)], elems: Vec<Option<Vec<u8>>>) -> Vec<u8> {
    let mut body = Vec::new();
    body.extend_from_slice(&(dims.len() as i32).to_be_bytes());
    let has_nulls = elems.iter().any(|e| e.is_none());
    body.extend_from_slice(&(has_nulls as i32).to_be_bytes());
    body.extend_from_slice(&oid.to_be_bytes());
    for (len, lb) in dims {
        body.extend_from_slice(&len.to_be_bytes());
        body.extend_from_slice(&lb.to_be_bytes());
    }
    for e in &elems {
        envelope(&mut body, e);
    }
    if dims.len() >= 2 {
        let mut p = (body.len() as i32).to_be_bytes().to_vec();
        p.extend_from_slice(&body);
        p
    } else {
        body
    }
}

fn some(b: &[u8]) -> Option<Vec<u8>> {
    Some(b.to_vec())
}

fn load_fixture(name: &str) -> Vec<u8> {
    let i16s = || vec![some(&(-1i16).to_be_bytes()), some(&0i16.to_be_bytes()), some(&1i16.to_be_bytes())];
    let i32s = || vec![some(&(-1i32).to_be_bytes()), some(&0i32.to_be_bytes()), some(&1i32.to_be_bytes())];
    let i64s = || vec![some(&(-1i64).to_be_bytes()), some(&0i64.to_be_bytes()), some(&1i64.to_be_bytes())];
    let bools = || vec![some(&[1]), some(&[0])];
    let strings = || vec![some(b""), some(STRING.as_bytes())];
    let binaries = || vec![some(b""), some(BINARY)];
    let dates = || {
        vec![
            some(&(0 - PG_EPOCH_DAYS).to_be_bytes()),
            some(&(-DATE32 - PG_EPOCH_DAYS).to_be_bytes()),
            some(&(DATE32 - PG_EPOCH_DAYS).to_be_bytes()),
        ]
    };
    let stamps = || {
        vec![
            some(&(0 - PG_EPOCH_US).to_be_bytes()),
            some(&(1 - PG_EPOCH_US).to_be_bytes()),
            some(&(TIMESTAMP_US - PG_EPOCH_US).to_be_bytes()),
        ]
    };
    let interval = |micros: i64| {
        let mut p = micros.to_be_bytes().to_vec();
        p.extend_from_slice(&[0, 0, 0, 0, 0, 0, 0, 0]);
        Some(p)
    };
    let with_null = |mut v: Vec<Option<Vec<u8>>>| {
        v.push(None);
        v
    };
    let int4_elems = |vals: &[i32]| vals.iter().map(|n| some(&n.to_be_bytes())).collect::<Vec<_>>();
    let cells = match name {
        "bool" => bools(),
        "bool_nullable" => with_null(bools()),
        "int8" | "int16" => i16s(),
        "int32" => i32s(),
        "int32_nullable" => with_null(i32s()),
        "int64" => i64s(),
        "float32" => vec![
            some(&(-1.0f32).to_be_bytes()),
            some(&0.0f32.to_be_bytes()),
            some(&1.0f32.to_be_bytes()),
            some(&f32::INFINITY.to_be_bytes()),
        ],
        "float64" => vec![
            some(&(-1.0f64).to_be_bytes()),
            some(&0.0f64.to_be_bytes()),
            some(&1.0f64.to_be_bytes()),
            some(&f64::INFINITY.to_be_bytes()),
        ],
        "string" => strings(),
        "string_nullable" => with_null(strings()),
        "binary" => binaries(),
        "binary_nullable" => with_null(binaries()),
        "date32" => dates(),
        "date32_nullable" => with_null(dates()),
        "time_us" => vec![
            some(&0i64.to_be_bytes()),
            some(&1i64.to_be_bytes()),
            some(&TIME_US.to_be_bytes()),
        ],
        "timestamp_us_notz" | "timestamp_us_tz" => stamps(),
        "duration_us" => vec![interval(0), interval(1), interval(DURATION_US)],
        "list_int32" | "list_int32_nullable" => {
            vec![Some(array_payload(23, &[(3, 1)], int4_elems(&[-1, 0, 1])))]
        }
        "list_bool" => vec![Some(array_payload(16, &[(2, 1)], vec![some(&[1]), some(&[0])]))],
        "uuid" => vec![some(&UUID)],
        "uuid_nullable" => vec![some(&UUID), None],
        "money" => vec![some(&12_499i64.to_be_bytes())],
        "oid" => vec![some(&3802u32.to_be_bytes())],
        "numeric" => vec![some(&[0, 0, 0, 0, 0, 0, 0, 0])],
        "int32_matrix" => vec![Some(array_payload(
            23,
            &[(2, 1), (3, 1)],
            int4_elems(&[1, 2, 3, 4, 5, 6]),
        ))],
        other => panic!("no blob for fixture: {other}"),
    };
    blob(cells)
}

fn schema_for_fixture(name: &str) -> Schema {
    let nullable = name.ends_with("_nullable");
    let base = name.strip_suffix("_nullable").unwrap_or(name);
    let (col_name, ty) = match base {
        "bool" => ("bool", PgType::Bool),
        "int8" => ("int8", PgType::Int2),
        "int16" => ("int16", PgType::Int2),
        "int32" => ("int32", PgType::Int4),
        "int64" => ("int64", PgType::Int8),
        "float32" => ("float32", PgType::Float4),
        "float64" => ("float64", PgType::Float8),
        "string" => ("string", PgType::Text),
        "binary" => ("binary", PgType::Bytea),
        "date32" => ("date32", PgType::Date),
        "time_us" => ("time", PgType::Time),
        "timestamp_us_notz" => ("timestamp", PgType::Timestamp),
        "timestamp_us_tz" => ("timestamp", PgType::Timestamptz),
        "duration_us" => ("duration", PgType::Interval),
        "uuid" => ("id", PgType::Uuid),
        "money" => ("price", PgType::Money),
        "oid" => ("relid", PgType::Oid),
        "numeric" => ("n", PgType::Numeric),
        "int32_matrix" => ("matrix", PgType::Array(Box::new(PgType::Int4))),
        "list_int32" => ("list", PgType::Array(Box::new(PgType::Int4))),
        "list_bool" => ("list", PgType::Array(Box::new(PgType::Bool))),
        other => panic!("no schema mapping for fixture: {other}"),
    };
    Schema {
        columns: vec![Column {
            name: col_name.to_string(),
            ty,
            nullable,
        }],
    }
}

// ---- expected IR -------------------------------------------------------------------------

fn row(value: PgValue) -> PgRow {
    PgRow {
        values: vec![value],
    }
}

fn batch(rows: Vec<PgRow>) -> PgBatch {
    PgBatch { rows }
}

fn interval_micros(micros: i64) -> PgValue {
    PgValue::Interval(pgtypes::PgInterval::new(micros, 0, 0))
}

fn int32_array(vals: &[i32]) -> PgValue {
    PgValue::Array(pgtypes::PgArray::new(
        PgType::Int4,
        vec![pgtypes::ArrayDimension {
            length: vals.len() as i32,
            lower_bound: 1,
        }],
        vals.iter()
            .map(|&n| PgValue::Int4(pgtypes::PgInt4::new(n)))
            .collect(),
    ))
}

fn bool_array(vals: &[bool]) -> PgValue {
    PgValue::Array(pgtypes::PgArray::new(
        PgType::Bool,
        vec![pgtypes::ArrayDimension {
            length: vals.len() as i32,
            lower_bound: 1,
        }],
        vals.iter()
            .map(|&b| PgValue::Bool(pgtypes::PgBool::new(b)))
            .collect(),
    ))
}

fn int32_matrix_array(vals: &[i32]) -> PgValue {
    PgValue::Array(pgtypes::PgArray::new(
        PgType::Int4,
        vec![
            pgtypes::ArrayDimension {
                length: 2,
                lower_bound: 1,
            },
            pgtypes::ArrayDimension {
                length: 3,
                lower_bound: 1,
            },
        ],
        vals.iter()
            .map(|&n| PgValue::Int4(pgtypes::PgInt4::new(n)))
            .collect(),
    ))
}

fn float4(v: f32) -> PgValue {
    PgValue::Float4(pgtypes::PgFloat4::from_bits(v.to_bits()))
}

fn float8(v: f64) -> PgValue {
    PgValue::Float8(pgtypes::PgFloat8::from_bits(v.to_bits()))
}

fn assert_batches_eq(expected: &PgBatch, actual: &PgBatch) {
    assert_eq!(expected.rows.len(), actual.rows.len(), "row count mismatch");
    for (i, (exp_row, act_row)) in expected.rows.iter().zip(actual.rows.iter()).enumerate() {
        assert_eq!(
            exp_row.values.len(),
            act_row.values.len(),
            "column count mismatch in row {i}"
        );
        for (j, (exp_val, act_val)) in exp_row.values.iter().zip(act_row.values.iter()).enumerate()
        {
            assert_eq!(exp_val, act_val, "value mismatch at row {i} column {j}");
        }
    }
}

fn assert_decodes_to(fixture: &str, expected: PgBatch) {
    let schema = schema_for_fixture(fixture);
    let blob = load_fixture(fixture);
    let actual = decode(&schema, &blob).expect("decode should succeed");
    assert_batches_eq(&expected, &actual);
}

// ---- decoding ----------------------------------------------------------------------------

#[test]
fn decode_golden_bool() {
    assert_decodes_to(
        "bool",
        batch(vec![
            row(PgValue::Bool(pgtypes::PgBool::new(true))),
            row(PgValue::Bool(pgtypes::PgBool::new(false))),
        ]),
    );
}

#[test]
fn decode_golden_bool_nullable() {
    assert_decodes_to(
        "bool_nullable",
        batch(vec![
            row(PgValue::Bool(pgtypes::PgBool::new(true))),
            row(PgValue::Bool(pgtypes::PgBool::new(false))),
            row(PgValue::Null),
        ]),
    );
}

#[test]
fn decode_golden_int8() {
    assert_decodes_to(
        "int8",
        batch(vec![
            row(PgValue::Int2(pgtypes::PgInt2::new(-1))),
            row(PgValue::Int2(pgtypes::PgInt2::new(0))),
            row(PgValue::Int2(pgtypes::PgInt2::new(1))),
        ]),
    );
}

#[test]
fn decode_golden_int16() {
    assert_decodes_to(
        "int16",
        batch(vec![
            row(PgValue::Int2(pgtypes::PgInt2::new(-1))),
            row(PgValue::Int2(pgtypes::PgInt2::new(0))),
            row(PgValue::Int2(pgtypes::PgInt2::new(1))),
        ]),
    );
}

#[test]
fn decode_golden_int32() {
    assert_decodes_to(
        "int32",
        batch(vec![
            row(PgValue::Int4(pgtypes::PgInt4::new(-1))),
            row(PgValue::Int4(pgtypes::PgInt4::new(0))),
            row(PgValue::Int4(pgtypes::PgInt4::new(1))),
        ]),
    );
}

#[test]
fn decode_golden_int32_nullable() {
    assert_decodes_to(
        "int32_nullable",
        batch(vec![
            row(PgValue::Int4(pgtypes::PgInt4::new(-1))),
            row(PgValue::Int4(pgtypes::PgInt4::new(0))),
            row(PgValue::Int4(pgtypes::PgInt4::new(1))),
            row(PgValue::Null),
        ]),
    );
}

#[test]
fn decode_golden_int64() {
    assert_decodes_to(
        "int64",
        batch(vec![
            row(PgValue::Int8(pgtypes::PgInt8::new(-1))),
            row(PgValue::Int8(pgtypes::PgInt8::new(0))),
            row(PgValue::Int8(pgtypes::PgInt8::new(1))),
        ]),
    );
}

#[test]
fn decode_golden_float32() {
    assert_decodes_to(
        "float32",
        batch(vec![
            row(float4(-1.0)),
            row(float4(0.0)),
            row(float4(1.0)),
            row(float4(f32::INFINITY)),
        ]),
    );
}

#[test]
fn decode_golden_float64() {
    assert_decodes_to(
        "float64",
        batch(vec![
            row(float8(-1.0)),
            row(float8(0.0)),
            row(float8(1.0)),
            row(float8(f64::INFINITY)),
        ]),
    );
}

#[test]
fn decode_golden_string() {
    assert_decodes_to(
        "string",
        batch(vec![
            row(PgValue::Text(pgtypes::PgText::new(""))),
            row(PgValue::Text(pgtypes::PgText::new(STRING))),
        ]),
    );
}

#[test]
fn decode_golden_string_nullable() {
    assert_decodes_to(
        "string_nullable",
        batch(vec![
            row(PgValue::Text(pgtypes::PgText::new(""))),
            row(PgValue::Text(pgtypes::PgText::new(STRING))),
            row(PgValue::Null),
        ]),
    );
}

#[test]
fn decode_golden_binary() {
    assert_decodes_to(
        "binary",
        batch(vec![
            row(PgValue::Bytea(pgtypes::PgBytea::new(vec![]))),
            row(PgValue::Bytea(pgtypes::PgBytea::new(BINARY.to_vec()))),
        ]),
    );
}

#[test]
fn decode_golden_binary_nullable() {
    assert_decodes_to(
        "binary_nullable",
        batch(vec![
            row(PgValue::Bytea(pgtypes::PgBytea::new(vec![]))),
            row(PgValue::Bytea(pgtypes::PgBytea::new(BINARY.to_vec()))),
            row(PgValue::Null),
        ]),
    );
}

#[test]
fn decode_golden_date32() {
    assert_decodes_to(
        "date32",
        batch(vec![
            row(PgValue::Date(pgtypes::PgDate::new(0))),
            row(PgValue::Date(pgtypes::PgDate::new(-DATE32))),
            row(PgValue::Date(pgtypes::PgDate::new(DATE32))),
        ]),
    );
}

#[test]
fn decode_golden_date32_nullable() {
    assert_decodes_to(
        "date32_nullable",
        batch(vec![
            row(PgValue::Date(pgtypes::PgDate::new(0))),
            row(PgValue::Date(pgtypes::PgDate::new(-DATE32))),
            row(PgValue::Date(pgtypes::PgDate::new(DATE32))),
            row(PgValue::Null),
        ]),
    );
}

#[test]
fn decode_golden_time_us() {
    assert_decodes_to(
        "time_us",
        batch(vec![
            row(PgValue::Time(pgtypes::PgTime::new(0))),
            row(PgValue::Time(pgtypes::PgTime::new(1))),
            row(PgValue::Time(pgtypes::PgTime::new(TIME_US))),
        ]),
    );
}

#[test]
fn decode_golden_timestamp_us_notz() {
    assert_decodes_to(
        "timestamp_us_notz",
        batch(vec![
            row(PgValue::Timestamp(pgtypes::PgTimestamp::new(0))),
            row(PgValue::Timestamp(pgtypes::PgTimestamp::new(1))),
            row(PgValue::Timestamp(pgtypes::PgTimestamp::new(TIMESTAMP_US))),
        ]),
    );
}

#[test]
fn decode_golden_timestamp_us_tz() {
    assert_decodes_to(
        "timestamp_us_tz",
        batch(vec![
            row(PgValue::Timestamptz(pgtypes::PgTimestamptz::new(0))),
            row(PgValue::Timestamptz(pgtypes::PgTimestamptz::new(1))),
            row(PgValue::Timestamptz(pgtypes::PgTimestamptz::new(TIMESTAMP_US))),
        ]),
    );
}

#[test]
fn decode_golden_duration_us() {
    assert_decodes_to(
        "duration_us",
        batch(vec![
            row(interval_micros(0)),
            row(interval_micros(1)),
            row(interval_micros(DURATION_US)),
        ]),
    );
}

#[test]
fn decode_golden_list_int32() {
    assert_decodes_to("list_int32", batch(vec![row(int32_array(&[-1, 0, 1]))]));
}

#[test]
fn decode_golden_list_int32_nullable() {
    assert_decodes_to(
        "list_int32_nullable",
        batch(vec![row(int32_array(&[-1, 0, 1]))]),
    );
}

#[test]
fn decode_golden_list_bool() {
    assert_decodes_to("list_bool", batch(vec![row(bool_array(&[true, false]))]));
}

#[test]
fn decode_golden_uuid() {
    assert_decodes_to(
        "uuid",
        batch(vec![row(PgValue::Uuid(pgtypes::PgUuid::new(UUID)))]),
    );
}

#[test]
fn decode_golden_uuid_nullable() {
    assert_decodes_to(
        "uuid_nullable",
        batch(vec![row(PgValue::Uuid(pgtypes::PgUuid::new(UUID))), row(PgValue::Null)]),
    );
}

#[test]
fn decode_golden_money() {
    assert_decodes_to(
        "money",
        batch(vec![row(PgValue::Money(pgtypes::PgMoney::new(12_499)))]),
    );
}

#[test]
fn decode_golden_oid() {
    assert_decodes_to("oid", batch(vec![row(PgValue::Oid(pgtypes::PgOid::new(3802)))]));
}

#[test]
fn decode_golden_numeric() {
    assert_decodes_to(
        "numeric",
        batch(vec![row(PgValue::Numeric(pgtypes::PgNumeric::zero()))]),
    );
}

#[test]
fn decode_golden_int32_matrix() {
    assert_decodes_to(
        "int32_matrix",
        batch(vec![row(int32_matrix_array(&[1, 2, 3, 4, 5, 6]))]),
    );
}

#[test]
fn fixture_begins_with_copy_magic() {
    let blob = load_fixture("bool");
    assert_eq!(&blob[..11], COPY_MAGIC);
}

#[test]
fn fixture_ends_with_footer_sentinel() {
    let blob = load_fixture("bool");
    assert_eq!(blob[blob.len() - 2..], [0xFF, 0xFF]);
}

#[test]
fn timestamptz_decodes_to_timestamptz_ir_variant() {
    let schema = schema_for_fixture("timestamp_us_tz");
    let blob = load_fixture("timestamp_us_tz");
    let batch = decode(&schema, &blob).expect("decode");
    assert!(matches!(batch.rows[0].values[0], PgValue::Timestamptz(_)));
}

// ---- re-encoding -------------------------------------------------------------------------

fn assert_roundtrip(fixture: &str) {
    let schema = schema_for_fixture(fixture);
    let original = load_fixture(fixture);
    let batch = decode(&schema, &original).expect("decode");
    let reencoded = encode(&schema, &batch).expect("encode");
    assert_eq!(
        original, reencoded,
        "roundtrip must reproduce identical COPY binary bytes"
    );
}

#[test]
fn roundtrip_bool() {
    assert_roundtrip("bool");
}

#[test]
fn roundtrip_int32() {
    assert_roundtrip("int32");
}

#[test]
fn roundtrip_float64() {
    assert_roundtrip("float64");
}

#[test]
fn roundtrip_string() {
    assert_roundtrip("string");
}

#[test]
fn roundtrip_date32() {
    assert_roundtrip("date32");
}

#[test]
fn roundtrip_timestamp_us_notz() {
    assert_roundtrip("timestamp_us_notz");
}

#[test]
fn roundtrip_timestamp_us_tz() {
    assert_roundtrip("timestamp_us_tz");
}

#[test]
fn roundtrip_list_int32() {
    assert_roundtrip("list_int32");
}

#[test]
fn roundtrip_uuid() {
    assert_roundtrip("uuid");
}

#[test]
fn roundtrip_money() {
    assert_roundtrip("money");
}

#[test]
fn roundtrip_int32_matrix() {
    assert_roundtrip("int32_matrix");
}

#[test]
fn roundtrip_preserves_nullable_rows() {
    let fixture = "int32_nullable";
    let schema = schema_for_fixture(fixture);
    let original = load_fixture(fixture);

    let batch = decode(&schema, &original).unwrap();
    let reencoded = encode(&schema, &batch).unwrap();
    assert_eq!(original, reencoded);
}

#[test]
fn encode_then_decode_matches_original_ir() {
    let fixture = "bool";
    let schema = schema_for_fixture(fixture);
    let original = load_fixture(fixture);
    let expected_ir = PgBatch {
        rows: vec![
            PgRow {
                values: vec![PgValue::Bool(pgtypes::PgBool::new(true))],
            },
            PgRow {
                values: vec![PgValue::Bool(pgtypes::PgBool::new(false))],
            },
        ],
    };

    let batch = decode(&schema, &original).unwrap();
    let bytes = encode(&schema, &batch).unwrap();
    let again = decode(&schema, &bytes).unwrap();

    assert_batches_eq(&expected_ir, &again);
}

// ---- incremental -------------------------------------------------------------------------

#[test]
fn decoder_yields_same_rows_as_decode() {
    let fixture = "int32";
    let schema = schema_for_fixture(fixture);
    let blob = load_fixture(fixture);
    let expected = PgBatch {
        rows: vec![
            PgRow {
                values: vec![PgValue::Int4(pgtypes::PgInt4::new(-1))],
            },
            PgRow {
                values: vec![PgValue::Int4(pgtypes::PgInt4::new(0))],
            },
            PgRow {
                values: vec![PgValue::Int4(pgtypes::PgInt4::new(1))],
            },
        ],
    };

    let batch = decode(&schema, &blob).unwrap();

    let mut decoder = Decoder::new(&schema, &blob).unwrap();
    let mut rows = Vec::new();
    while let Some(row) = decoder.next() {
        rows.push(row.unwrap());
    }

    assert_eq!(batch.rows.len(), expected.rows.len());
    let collected = PgBatch { rows };
    assert_batches_eq(&expected, &collected);
    assert_eq!(batch.rows, collected.rows);
}

#[test]
fn encoder_builds_same_bytes_as_encode() {
    let fixture = "bool";
    let schema = schema_for_fixture(fixture);
    let blob = load_fixture(fixture);
    let batch = decode(&schema, &blob).unwrap();

    let mut encoder = Encoder::new(&schema);
    for row in &batch.rows {
        encoder.write_row(row).unwrap();
    }
    let incremental = encoder.finish().unwrap();
    let one_shot = encode(&schema, &batch).unwrap();

    assert_eq!(one_shot, incremental);
}
