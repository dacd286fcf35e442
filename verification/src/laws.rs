//! Properties that relate decoding and encoding.
use crate::binary::be::{
    lemma_int_be_be_int, be_int, be_nat, int_be, lemma_be_int_int_be, lemma_be_nat_nat_be, lemma_nat_be_len,
    lemma_pow256_values, nat_be, pow256,
};
use crate::binary::field::spec_read_field;
use crate::binary::reader::{spec_fields, spec_tuple_raw};
use crate::binary::writer::{spec_field_bytes, spec_fields_bytes};
use crate::codec::decode::spec_decode_field;
use crate::codec::encode::spec_encode_field;
use crate::{
    lemma_next_consumes, spec_decode, spec_decode_cells, spec_encode, spec_encode_cells, spec_next, spec_row_write,
    spec_rows, spec_rows_bytes,
};
use crate::binary::constants::spec_magic;
use crate::binary::header::{spec_header, spec_header_bytes};
use crate::binary::writer::spec_footer_bytes;
use crate::schema::Column;
use crate::codec::array::{
    spec_decode_array, spec_dims, spec_dims_bytes, spec_dims_product, spec_element_bytes,
    spec_elems, spec_elems_bytes, spec_encode_array, spec_has_nulls, spec_oid_of_raw,
    spec_strip_total_len,
};
use crate::codec::decode::{spec_decode_element, spec_decode_scalar};
use crate::codec::encode::{spec_encode_element, spec_encode_scalar, spec_value_matches_type};
use crate::error::ErrorV;
use crate::schema::{lemma_from_oid_of_oid, spec_from_oid, spec_oid, PgType};
use crate::value::pgtypes::ArrayDimension;
use crate::value::pgtypes::numeric::{
    spec_decode_numeric, spec_digits, spec_digits_bytes, spec_encode_numeric, spec_sign,
    spec_sign_code,
};
use crate::value::{NumericV, ValueV};
use vstd::prelude::*;
use vstd::utf8::{encode_utf8, encode_utf8_decode_utf8, encode_utf8_valid_utf8};

verus! {

/// The front of `a + b` is `a`, the rest is `b`.
proof fn lemma_split(a: Seq<u8>, b: Seq<u8>)
    ensures
        (a + b).take(a.len() as int) == a,
        (a + b).skip(a.len() as int) == b,
{
    assert((a + b).take(a.len() as int) =~= a);
    assert((a + b).skip(a.len() as int) =~= b);
}

/// A value in `len` bytes of two's complement is read back as itself.
pub proof fn lemma_int_roundtrip(v: int, len: nat)
    requires
        len == 2 || len == 4 || len == 8,
        len == 2 ==> i16::MIN <= v <= i16::MAX,
        len == 4 ==> i32::MIN <= v <= i32::MAX,
        len == 8 ==> i64::MIN <= v <= i64::MAX,
    ensures
        be_int(int_be(v, len)) == v,
        int_be(v, len).len() == len,
{
    lemma_pow256_values();
    lemma_be_int_int_be(v, len);
}

/// A natural number in `len` bytes is read back as itself.
pub proof fn lemma_nat_roundtrip(v: nat, len: nat)
    requires
        len == 4 || len == 8,
        len == 4 ==> v <= u32::MAX,
        len == 8 ==> v <= u64::MAX,
    ensures
        be_nat(nat_be(v, len)) == v,
        nat_be(v, len).len() == len,
{
    lemma_pow256_values();
    lemma_be_nat_nat_be(v, len);
}

/// The digit limbs on the wire: two bytes each, in order.
proof fn lemma_digits_bytes(ds: Seq<i16>)
    ensures
        spec_digits_bytes(ds).len() == 2 * ds.len(),
        forall|i: int|
            0 <= i < ds.len() ==> #[trigger] spec_digits_bytes(ds).subrange(2 * i, 2 * i + 2)
                == int_be(ds[i] as int, 2),
    decreases ds.len(),
{
    if ds.len() > 0 {
        lemma_digits_bytes(ds.drop_last());
        let pre = spec_digits_bytes(ds.drop_last());
        let last = int_be(ds.last() as int, 2);
        lemma_nat_be_len((if ds.last() < 0 { ds.last() + pow256(2) } else { ds.last() as int }) as nat, 2);
        assert forall|i: int| 0 <= i < ds.len() implies #[trigger] spec_digits_bytes(ds).subrange(
            2 * i,
            2 * i + 2,
        ) == int_be(ds[i] as int, 2) by {
            if i < ds.len() - 1 {
                assert(spec_digits_bytes(ds).subrange(2 * i, 2 * i + 2) =~= pre.subrange(
                    2 * i,
                    2 * i + 2,
                ));
                assert(ds.drop_last()[i] == ds[i]);
            } else {
                assert(spec_digits_bytes(ds).subrange(2 * i, 2 * i + 2) =~= last);
            }
        }
    }
}

/// A `numeric` whose digit count matches its limbs is decoded back from its payload.
pub proof fn lemma_numeric_roundtrip(column: Seq<char>, ty: PgType, n: NumericV)
    requires
        n.digits.len() == (if n.ndigits < 0 { 0 } else { n.ndigits as int }),
    ensures
        spec_decode_numeric(column, ty, spec_encode_numeric(n)) == Ok::<NumericV, crate::error::ErrorV>(n),
{
    let code = spec_sign_code(n.sign);
    let a = int_be(n.ndigits as int, 2);
    let b = int_be(n.weight as int, 2);
    let c = int_be(code as int, 2);
    let d = int_be(n.dscale as int, 2);
    let ds = spec_digits_bytes(n.digits);
    lemma_int_roundtrip(n.ndigits as int, 2);
    lemma_int_roundtrip(n.weight as int, 2);
    lemma_int_roundtrip(code as int, 2);
    lemma_int_roundtrip(n.dscale as int, 2);
    lemma_digits_bytes(n.digits);
    let p = spec_encode_numeric(n);
    assert(p == a + b + c + d + ds);
    assert(p.take(2) =~= a);
    assert(p.subrange(2, 4) =~= b);
    assert(p.subrange(4, 6) =~= c);
    assert(p.subrange(6, 8) =~= d);
    assert(spec_sign(code as int) == Some(n.sign));
    let count = n.digits.len() as int;
    assert forall|i: int| 0 <= i < count implies #[trigger] spec_digits(p, count)[i] == n.digits[i] by {
        assert(p.subrange(8 + 2 * i, 10 + 2 * i) =~= ds.subrange(2 * i, 2 * i + 2));
        lemma_int_roundtrip(n.digits[i] as int, 2);
    }
    assert(spec_digits(p, count) =~= n.digits);
}

/// The content that a real value of a scalar type has: a `uuid` has sixteen bytes. And a
/// `numeric` carries as many limbs as its digit count says, on which alone decoding gives it back.
pub open spec fn scalar_wf(v: ValueV) -> bool {
    match v {
        ValueV::Uuid(b) => b.len() == 16,
        ValueV::Numeric(n) => n.digits.len() == (if n.ndigits < 0 {
            0
        } else {
            n.ndigits as int
        }),
        _ => true,
    }
}

/// Decoding the payload of an encoded scalar gives the value back.
#[verifier::spinoff_prover]
#[verifier::rlimit(40)]
pub proof fn lemma_scalar_roundtrip(column: Seq<char>, ty: PgType, v: ValueV)
    requires
        !(ty is Array),
        !(v is Null),
        spec_value_matches_type(v, ty),
        scalar_wf(v),
        spec_encode_scalar(column, ty, v) is Ok,
    ensures
        spec_decode_scalar(column, ty, spec_encode_scalar(column, ty, v)->Ok_0) == Ok::<
            ValueV,
            crate::error::ErrorV,
        >(v),
{
    broadcast use encode_utf8_valid_utf8, encode_utf8_decode_utf8;

    let p = spec_encode_scalar(column, ty, v)->Ok_0;
    match v {
        ValueV::Char(x) => lemma_int_roundtrip(x as int, 2),
        ValueV::Int2(x) => lemma_int_roundtrip(x as int, 2),
        ValueV::Int4(x) => lemma_int_roundtrip(x as int, 4),
        ValueV::Int8(x) => lemma_int_roundtrip(x as int, 8),
        ValueV::Float4(x) => lemma_nat_roundtrip(x as nat, 4),
        ValueV::Float8(x) => lemma_nat_roundtrip(x as nat, 8),
        ValueV::Date(x) => {
            let w = x.wrapping_sub(10957);
            lemma_int_roundtrip(w as int, 4);
            assert(w.wrapping_add(10957) == x);
        },
        ValueV::Time(x) => lemma_int_roundtrip(x as int, 8),
        ValueV::Timestamp(x) => {
            let w = x.wrapping_sub(946684800000000);
            lemma_int_roundtrip(w as int, 8);
            assert(w.wrapping_add(946684800000000) == x);
        },
        ValueV::Timestamptz(x) => {
            let w = x.wrapping_sub(946684800000000);
            lemma_int_roundtrip(w as int, 8);
            assert(w.wrapping_add(946684800000000) == x);
        },
        ValueV::Money(x) => lemma_int_roundtrip(x as int, 8),
        ValueV::Oid(x) => lemma_nat_roundtrip(x as nat, 4),
        ValueV::Timetz(m, tz) => {
            lemma_int_roundtrip(m as int, 8);
            lemma_int_roundtrip(tz as int, 4);
            lemma_split(int_be(m as int, 8), int_be(tz as int, 4));
        },
        ValueV::Interval(m, d, mo) => {
            lemma_int_roundtrip(m as int, 8);
            lemma_int_roundtrip(d as int, 4);
            lemma_int_roundtrip(mo as int, 4);
            let a = int_be(m as int, 8);
            let b = int_be(d as int, 4);
            let c = int_be(mo as int, 4);
            assert(p.take(8) =~= a);
            assert(p.subrange(8, 12) =~= b);
            assert(p.skip(12) =~= c);
        },
        ValueV::Jsonb(ver, t) => {
            assert(p.skip(1) =~= encode_utf8(t));
        },
        ValueV::Numeric(n) => {
            lemma_numeric_roundtrip(column, ty, n);
        },
        _ => {},
    }
}

/// The dimension headers take eight bytes each.
proof fn lemma_dims_bytes_len(ds: Seq<ArrayDimension>)
    ensures
        spec_dims_bytes(ds).len() == 8 * ds.len(),
    decreases ds.len(),
{
    if ds.len() > 0 {
        lemma_int_roundtrip(ds[0].length as int, 4);
        lemma_int_roundtrip(ds[0].lower_bound as int, 4);
        lemma_dims_bytes_len(ds.drop_first());
    }
}

/// Dimension headers are read back as the dimensions, their lengths multiplied as when they
/// were written.
proof fn lemma_dims_parse(
    column: Seq<char>,
    ty: PgType,
    ds: Seq<ArrayDimension>,
    t: Seq<u8>,
    acc: int,
    fin: int,
)
    requires
        acc >= 0,
        forall|i: int| 0 <= i < ds.len() ==> #[trigger] ds[i].length >= 0,
        spec_dims_product(ds, acc) == Some(fin),
        fin <= usize::MAX,
    ensures
        spec_dims(column, ty, spec_dims_bytes(ds) + t, ds.len() as int, acc) == Ok::<
            (Seq<ArrayDimension>, int, int),
            ErrorV,
        >((ds, fin, (8 * ds.len()) as int)),
    decreases ds.len(),
{
    lemma_dims_bytes_len(ds);
    if ds.len() == 0 {
        assert(spec_dims_bytes(ds) + t =~= t);
        assert(ds =~= Seq::<ArrayDimension>::empty());
    } else {
        let d = ds[0];
        let a = int_be(d.length as int, 4);
        let b = int_be(d.lower_bound as int, 4);
        let rest = ds.drop_first();
        lemma_int_roundtrip(d.length as int, 4);
        lemma_int_roundtrip(d.lower_bound as int, 4);
        lemma_dims_bytes_len(rest);
        let s = spec_dims_bytes(ds) + t;
        assert(s =~= a + b + (spec_dims_bytes(rest) + t));
        assert(s.take(4) =~= a);
        assert(s.skip(4).take(4) =~= b);
        assert(s.skip(8) =~= spec_dims_bytes(rest) + t);
        assert(d.length >= 0);
        assert(acc * d.length >= 0) by (nonlinear_arith)
            requires
                acc >= 0,
                d.length >= 0,
        ;
        let q = acc * d.length;
        assert forall|i: int| 0 <= i < rest.len() implies #[trigger] rest[i].length >= 0 by {
            assert(rest[i] == ds[i + 1]);
        }
        lemma_dims_parse(column, ty, rest, t, q, fin);
        assert(seq![ArrayDimension { length: d.length, lower_bound: d.lower_bound }] + rest =~= ds);
    }
}

/// An element envelope is read back as the element's field.
proof fn lemma_element_parse(f: Option<Seq<u8>>, t: Seq<u8>)
    requires
        f matches Some(q) ==> q.len() <= i32::MAX,
    ensures
        spec_read_field(spec_element_bytes(f) + t) == (
            Ok::<Option<Seq<u8>>, ErrorV>(f),
            spec_element_bytes(f).len() as int,
        ),
        (spec_element_bytes(f) + t).skip(spec_element_bytes(f).len() as int) == t,
        spec_element_bytes(f).len() >= 4,
{
    match f {
        None => {
            lemma_int_roundtrip(-1, 4);
            lemma_split(int_be(-1, 4), t);
        },
        Some(q) => {
            lemma_int_roundtrip(q.len() as int, 4);
            let s = spec_element_bytes(f) + t;
            assert(s =~= int_be(q.len() as int, 4) + (q + t));
            lemma_split(int_be(q.len() as int, 4), q + t);
            lemma_split(q, t);
            assert(s.skip(spec_element_bytes(f).len() as int) =~= t);
        },
    }
}

/// The element envelopes take at least four bytes each, and a payload is no longer than them.
proof fn lemma_elems_bytes_len(column: Seq<char>, ty: PgType, es: Seq<ValueV>)
    requires
        spec_elems_bytes(column, ty, es) is Ok,
    ensures
        spec_elems_bytes(column, ty, es)->Ok_0.len() >= 4 * es.len(),
    decreases es.len(),
{
    if es.len() > 0 {
        let f = spec_encode_element(column, ty, es[0])->Ok_0;
        lemma_elems_bytes_len(column, ty, es.drop_first());
        match f {
            None => lemma_int_roundtrip(-1, 4),
            Some(q) => {
                crate::binary::be::lemma_nat_be_len(
                    (if (q.len() as i32) < 0 {
                        (q.len() as i32) + pow256(4)
                    } else {
                        (q.len() as i32) as int
                    }) as nat,
                    4,
                );
            },
        }
    }
}

/// One array element is given back by decoding its envelope's content.
proof fn lemma_element_roundtrip(column: Seq<char>, ty: PgType, e: ValueV)
    requires
        !(ty is Array),
        spec_encode_element(column, ty, e) is Ok,
        scalar_wf(e),
    ensures
        spec_decode_element(column, ty, spec_encode_element(column, ty, e)->Ok_0) == Ok::<
            ValueV,
            ErrorV,
        >(e),
{
    if !(e is Null) {
        lemma_scalar_roundtrip(column, ty, e);
    }
}

/// The elements are read back from their envelopes.
#[verifier::spinoff_prover]
#[verifier::rlimit(40)]
proof fn lemma_elems_parse(column: Seq<char>, ty: PgType, es: Seq<ValueV>, t: Seq<u8>)
    requires
        !(ty is Array),
        spec_elems_bytes(column, ty, es) is Ok,
        spec_elems_bytes(column, ty, es)->Ok_0.len() <= i32::MAX,
        forall|i: int| 0 <= i < es.len() ==> #[trigger] scalar_wf(es[i]),
    ensures
        spec_elems(column, ty, spec_elems_bytes(column, ty, es)->Ok_0 + t, es.len() as int) == Ok::<
            Seq<ValueV>,
            ErrorV,
        >(es),
    decreases es.len(),
{
    let eb = spec_elems_bytes(column, ty, es)->Ok_0;
    if es.len() > 0 {
        let f = spec_encode_element(column, ty, es[0])->Ok_0;
        let rest = es.drop_first();
        let rb = spec_elems_bytes(column, ty, rest)->Ok_0;
        let fb = spec_element_bytes(f);
        assert(eb == fb + rb);
        if let Some(q) = f {
            assert(fb.len() == 4 + q.len()) by {
                lemma_int_roundtrip(q.len() as int, 4);
            }
        }
        lemma_element_parse(f, rb + t);
        assert(eb + t =~= fb + (rb + t));
        assert(scalar_wf(es[0]));
        lemma_element_roundtrip(column, ty, es[0]);
        assert forall|i: int| 0 <= i < rest.len() implies #[trigger] scalar_wf(rest[i]) by {
            assert(rest[i] == es[i + 1]);
        }
        lemma_elems_parse(column, ty, rest, t);
        assert(seq![es[0]] + rest =~= es);
    } else {
        assert(es =~= Seq::<ValueV>::empty());
    }
}

/// What an array value needs for decoding to give it back: its dimensions have non-negative
/// lengths and its elements are sound scalars.
pub open spec fn array_wf(v: ValueV) -> bool {
    match v {
        ValueV::Array(et, dims, es) => {
            &&& forall|i: int| 0 <= i < dims.len() ==> #[trigger] dims[i].length >= 0
            &&& forall|i: int| 0 <= i < es.len() ==> #[trigger] scalar_wf(es[i])
        },
        _ => true,
    }
}

/// Decoding the payload of an encoded array gives the array back.
#[verifier::spinoff_prover]
#[verifier::rlimit(40)]
pub proof fn lemma_array_roundtrip(column: Seq<char>, ty: PgType, v: ValueV)
    requires
        ty is Array,
        array_wf(v),
        spec_encode_array(column, ty, v) is Ok,
        spec_encode_array(column, ty, v)->Ok_0.len() <= i32::MAX,
    ensures
        spec_decode_array(column, ty, spec_encode_array(column, ty, v)->Ok_0) == Ok::<ValueV, ErrorV>(v),
{
    let et = *ty->Array_0;
    let p = spec_encode_array(column, ty, v)->Ok_0;
    let (vt, dims, es) = (v->Array_0, v->Array_1, v->Array_2);
    let count = spec_dims_product(dims, 1)->Some_0;
    let oid = spec_oid(et)->Some_0;
    let eb = spec_elems_bytes(column, et, es)->Ok_0;
    let nd = dims.len();
    let hn: int = if spec_has_nulls(es) {
        1
    } else {
        0
    };
    let db = spec_dims_bytes(dims);
    let head = int_be((nd as i32) as int, 4) + int_be(hn, 4) + int_be((oid as i32) as int, 4);
    let body = head + db + eb;
    lemma_dims_bytes_len(dims);
    lemma_int_roundtrip(hn, 4);
    assert(oid <= 3802);
    lemma_int_roundtrip(oid as int, 4);
    lemma_elems_bytes_len(column, et, es);
    assert(body.len() <= p.len());
    assert(nd <= i32::MAX);
    lemma_int_roundtrip(nd as int, 4);
    assert(head.len() == 12);
    // Strip the total-length prefix, or find none.
    let b = spec_strip_total_len(p);
    if nd >= 2 {
        lemma_int_roundtrip(body.len() as int, 4);
        lemma_split(int_be(body.len() as int, 4), body);
        assert(b == body);
    } else {
        lemma_int_roundtrip(1, 4);
        assert(p == body);
        assert(p.take(4) =~= int_be(1, 4));
        assert(b == body);
    }
    assert(b.take(4) =~= int_be(nd as int, 4));
    assert(b.skip(4).take(4) =~= int_be(hn, 4));
    assert(b.skip(8).take(4) =~= int_be(oid as int, 4));
    assert(spec_oid_of_raw(oid as int) == oid);
    lemma_from_oid_of_oid(et);
    assert(spec_from_oid(oid) == Some(et));
    assert(es.len() <= usize::MAX);
    assert(b.skip(12) =~= db + eb);
    lemma_dims_parse(column, ty, dims, eb, 1, count);
    assert(b.skip(12 + 8 * nd as int) =~= eb);
    assert(eb + Seq::<u8>::empty() =~= eb);
    lemma_elems_parse(column, et, es, Seq::empty());
}

/// A value that decoding can give back: sound scalar content, and a sound array.
pub open spec fn value_wf(v: ValueV) -> bool {
    scalar_wf(v) && array_wf(v)
}

/// Decoding the field that encoding a value produced gives the value back, so long as the
/// payload fits the length prefix.
#[verifier::spinoff_prover]
#[verifier::rlimit(40)]
pub proof fn lemma_field_roundtrip(column: Seq<char>, ty: PgType, nullable: bool, v: ValueV)
    requires
        value_wf(v),
        spec_encode_field(column, ty, nullable, v) is Ok,
        spec_encode_field(column, ty, nullable, v)->Ok_0 matches Some(p) ==> p.len() <= i32::MAX,
    ensures
        spec_decode_field(column, ty, nullable, spec_encode_field(column, ty, nullable, v)->Ok_0)
            == Ok::<ValueV, ErrorV>(v),
{
    if !(v is Null) {
        if ty is Array {
            lemma_array_roundtrip(column, ty, v);
        } else {
            lemma_scalar_roundtrip(column, ty, v);
        }
    }
}

/// A field envelope is read back as the field.
proof fn lemma_field_parse(f: Option<Seq<u8>>, t: Seq<u8>)
    requires
        spec_field_bytes(f) is Ok,
    ensures
        spec_field_bytes(f)->Ok_0 == spec_element_bytes(f),
        spec_read_field(spec_field_bytes(f)->Ok_0 + t) == (
            Ok::<Option<Seq<u8>>, ErrorV>(f),
            spec_field_bytes(f)->Ok_0.len() as int,
        ),
        (spec_field_bytes(f)->Ok_0 + t).skip(spec_field_bytes(f)->Ok_0.len() as int) == t,
{
    lemma_element_parse(f, t);
}

/// The field envelopes of a tuple are read back as its fields.
proof fn lemma_fields_parse(fs: Seq<Option<Seq<u8>>>, t: Seq<u8>)
    requires
        spec_fields_bytes(fs).1 is None,
    ensures
        spec_fields(spec_fields_bytes(fs).0 + t, fs.len() as int) == (
            Ok::<Seq<Option<Seq<u8>>>, ErrorV>(fs),
            spec_fields_bytes(fs).0.len() as int,
        ),
    decreases fs.len(),
{
    if fs.len() == 0 {
        assert(fs =~= Seq::<Option<Seq<u8>>>::empty());
    } else {
        let f = fs[0];
        let rest = fs.drop_first();
        let fb = spec_field_bytes(f)->Ok_0;
        let rb = spec_fields_bytes(rest).0;
        lemma_field_parse(f, rb + t);
        assert(spec_fields_bytes(fs).0 + t =~= fb + (rb + t));
        lemma_fields_parse(rest, t);
        assert(seq![f] + rest =~= fs);
    }
}

/// Encoding the values of a row from column `i` on gives one field per column, each the
/// encoding of its value.
proof fn lemma_encode_cells(cols: Seq<Column>, vals: Seq<ValueV>, i: int)
    requires
        0 <= i <= cols.len(),
        spec_encode_cells(cols, vals, i) is Ok,
    ensures
        spec_encode_cells(cols, vals, i)->Ok_0.len() == cols.len() - i,
        forall|j: int|
            0 <= j < cols.len() - i ==> spec_encode_field(
                cols[i + j].name@,
                cols[i + j].ty,
                cols[i + j].nullable,
                vals[i + j],
            ) == Ok::<Option<Seq<u8>>, ErrorV>(#[trigger] spec_encode_cells(cols, vals, i)->Ok_0[j]),
    decreases cols.len() - i,
{
    if i < cols.len() {
        lemma_encode_cells(cols, vals, i + 1);
        let fs = spec_encode_cells(cols, vals, i)->Ok_0;
        let rest = spec_encode_cells(cols, vals, i + 1)->Ok_0;
        assert forall|j: int| 0 <= j < cols.len() - i implies spec_encode_field(
            cols[i + j].name@,
            cols[i + j].ty,
            cols[i + j].nullable,
            vals[i + j],
        ) == Ok::<Option<Seq<u8>>, ErrorV>(#[trigger] fs[j]) by {
            if j > 0 {
                assert(fs[j] == rest[j - 1]);
                assert(i + 1 + (j - 1) == i + j);
            }
        }
    }
}

/// Decoding the cells from column `i` on gives the values there when each cell decodes to
/// its value.
#[verifier::spinoff_prover]
#[verifier::rlimit(40)]
proof fn lemma_decode_cells(cols: Seq<Column>, cells: Seq<Option<Seq<u8>>>, vals: Seq<ValueV>, i: int)
    requires
        0 <= i <= cols.len(),
        vals.len() == cols.len(),
        forall|j: int|
            i <= j < cols.len() ==> spec_decode_field(
                cols[j].name@,
                cols[j].ty,
                cols[j].nullable,
                #[trigger] cells[j],
            ) == Ok::<ValueV, ErrorV>(vals[j]),
    ensures
        spec_decode_cells(cols, cells, i) == Ok::<Seq<ValueV>, ErrorV>(vals.skip(i)),
    decreases cols.len() - i,
{
    if i < cols.len() {
        assert(spec_decode_field(cols[i].name@, cols[i].ty, cols[i].nullable, cells[i]) == Ok::<
            ValueV,
            ErrorV,
        >(vals[i]));
        lemma_decode_cells(cols, cells, vals, i + 1);
        assert(seq![vals[i]] + vals.skip(i + 1) =~= vals.skip(i));
    } else {
        assert(vals.skip(i) =~= Seq::<ValueV>::empty());
    }
}

/// Every value of the row can be given back by decoding.
pub open spec fn row_wf(vals: Seq<ValueV>) -> bool {
    forall|j: int| 0 <= j < vals.len() ==> #[trigger] value_wf(vals[j])
}

/// A written row is read back, as one step of the decoder, from the front of the bytes.
#[verifier::spinoff_prover]
#[verifier::rlimit(40)]
pub proof fn lemma_row_roundtrip(cols: Seq<Column>, vals: Seq<ValueV>, t: Seq<u8>)
    requires
        row_wf(vals),
        spec_row_write(cols, vals).1 is Ok,
    ensures
        spec_next(cols, spec_row_write(cols, vals).0 + t, false) == (
            Some(Ok::<Seq<ValueV>, ErrorV>(vals)),
            spec_row_write(cols, vals).0.len() as int,
            false,
        ),
        spec_row_write(cols, vals).0.len() >= 2,
{
    let n = cols.len();
    let fs = spec_encode_cells(cols, vals, 0)->Ok_0;
    lemma_encode_cells(cols, vals, 0);
    let fb = spec_fields_bytes(fs).0;
    let cnt = int_be(n as int, 2);
    lemma_int_roundtrip(n as int, 2);
    let b = spec_row_write(cols, vals).0;
    assert(b == cnt + fb);
    let s = b + t;
    assert(s =~= cnt + (fb + t));
    lemma_split(cnt, fb + t);
    lemma_fields_parse(fs, t);
    assert forall|j: int| 0 <= j < n implies spec_decode_field(
        cols[j].name@,
        cols[j].ty,
        cols[j].nullable,
        #[trigger] fs[j],
    ) == Ok::<ValueV, ErrorV>(vals[j]) by {
        assert(spec_encode_field(cols[j].name@, cols[j].ty, cols[j].nullable, vals[j]) == Ok::<
            Option<Seq<u8>>,
            ErrorV,
        >(fs[j])) by {
            assert(0 + j == j);
        }
        assert(value_wf(vals[j]));
        lemma_fields_bytes_fit(fs, j);
        lemma_field_roundtrip(cols[j].name@, cols[j].ty, cols[j].nullable, vals[j]);
    }
    lemma_decode_cells(cols, fs, vals, 0);
    assert(vals.skip(0) =~= vals);
}

/// A field list written whole holds no payload longer than a length prefix can say.
proof fn lemma_fields_bytes_fit(fs: Seq<Option<Seq<u8>>>, j: int)
    requires
        spec_fields_bytes(fs).1 is None,
        0 <= j < fs.len(),
    ensures
        spec_field_bytes(fs[j]) is Ok,
        fs[j] matches Some(p) ==> p.len() <= i32::MAX,
    decreases fs.len(),
{
    if j > 0 {
        lemma_fields_bytes_fit(fs.drop_first(), j - 1);
    }
}

/// The tuples written for `rows`, then the footer, are read back as `rows`.
#[verifier::spinoff_prover]
#[verifier::rlimit(40)]
pub proof fn lemma_rows_roundtrip(cols: Seq<Column>, rows: Seq<Seq<ValueV>>)
    requires
        forall|i: int| 0 <= i < rows.len() ==> #[trigger] row_wf(rows[i]),
        spec_rows_bytes(cols, rows) is Ok,
    ensures
        spec_rows(cols, spec_rows_bytes(cols, rows)->Ok_0 + spec_footer_bytes()) == Ok::<
            Seq<Seq<ValueV>>,
            ErrorV,
        >(rows),
    decreases rows.len(),
{
    let s = spec_rows_bytes(cols, rows)->Ok_0 + spec_footer_bytes();
    if rows.len() == 0 {
        lemma_int_roundtrip(-1, 2);
        assert(s =~= spec_footer_bytes());
        assert(s.take(2) =~= s);
        assert(rows =~= Seq::<Seq<ValueV>>::empty());
    } else {
        let rest = rows.drop_first();
        let b = spec_row_write(cols, rows[0]).0;
        let rb = spec_rows_bytes(cols, rest)->Ok_0;
        assert(s =~= b + (rb + spec_footer_bytes()));
        assert(row_wf(rows[0]));
        lemma_row_roundtrip(cols, rows[0], rb + spec_footer_bytes());
        lemma_split(b, rb + spec_footer_bytes());
        assert forall|i: int| 0 <= i < rest.len() implies #[trigger] row_wf(rest[i]) by {
            assert(rest[i] == rows[i + 1]);
        }
        lemma_rows_roundtrip(cols, rest);
        assert(seq![rows[0]] + rest =~= rows);
    }
}

/// The header that encoding writes is read as flags zero, no extension, nineteen bytes.
pub proof fn lemma_header_roundtrip(t: Seq<u8>)
    ensures
        spec_header(spec_header_bytes() + t) == Ok::<(i32, Seq<u8>, int), ErrorV>(
            (0i32, Seq::<u8>::empty(), 19),
        ),
{
    let s = spec_header_bytes() + t;
    lemma_int_roundtrip(0, 4);
    assert(int_be(0, 4) =~= seq![0u8, 0u8, 0u8, 0u8]) by {
        reveal_with_fuel(nat_be, 5);
    }
    assert(s.take(11) =~= spec_magic());
    assert(spec_magic().take(11) =~= spec_magic());
    assert(s.skip(11).take(4) =~= int_be(0, 4));
    assert(s.skip(11).skip(4).take(4) =~= int_be(0, 4));
    assert(be_int(s.skip(11).skip(4).take(4)) == 0);
    assert(be_int(s.skip(11).take(4)) == 0);
    assert(s.skip(11).skip(4).skip(4).take(0) =~= Seq::<u8>::empty());
}

/// Decoding what encoding produced gives the rows back: for a table of at most `i16::MAX`
/// columns whose values decoding can give back.
#[verifier::spinoff_prover]
#[verifier::rlimit(40)]
pub proof fn lemma_decode_encode(cols: Seq<Column>, rows: Seq<Seq<ValueV>>)
    requires
        cols.len() <= i16::MAX,
        forall|i: int| 0 <= i < rows.len() ==> #[trigger] row_wf(rows[i]),
        spec_encode(cols, rows) is Ok,
    ensures
        spec_decode(cols, spec_encode(cols, rows)->Ok_0) == Ok::<Seq<Seq<ValueV>>, ErrorV>(rows),
{
    let rb = spec_rows_bytes(cols, rows)->Ok_0;
    let data = spec_encode(cols, rows)->Ok_0;
    assert(data =~= spec_header_bytes() + (rb + spec_footer_bytes()));
    lemma_header_roundtrip(rb + spec_footer_bytes());
    assert(data.skip(19) =~= rb + spec_footer_bytes());
    lemma_rows_roundtrip(cols, rows);
}

/// A decoded scalar is one that decoding can give back.
proof fn lemma_decoded_scalar_wf(column: Seq<char>, ty: PgType, p: Seq<u8>)
    requires
        spec_decode_scalar(column, ty, p) is Ok,
    ensures
        value_wf(spec_decode_scalar(column, ty, p)->Ok_0),
        !(spec_decode_scalar(column, ty, p)->Ok_0 is Array),
{
    if ty is Numeric && p.len() >= 8 {
        lemma_int_be_be_int(p.take(2));
        lemma_pow256_values();
    }
}

/// The dimensions read from the wire have non-negative lengths.
proof fn lemma_decoded_dims_wf(column: Seq<char>, ty: PgType, s: Seq<u8>, k: int, acc: int)
    requires
        spec_dims(column, ty, s, k, acc) is Ok,
    ensures
        ({
            let ds = spec_dims(column, ty, s, k, acc)->Ok_0.0;
            forall|i: int| 0 <= i < ds.len() ==> #[trigger] ds[i].length >= 0
        }),
    decreases k,
{
    if k > 0 {
        let length = be_int(s.take(4));
        lemma_int_be_be_int(s.take(4));
        lemma_pow256_values();
        lemma_decoded_dims_wf(column, ty, s.skip(8), k - 1, acc * length);
        let ds = spec_dims(column, ty, s, k, acc)->Ok_0.0;
        let rest = spec_dims(column, ty, s.skip(8), k - 1, acc * length)->Ok_0.0;
        assert forall|i: int| 0 <= i < ds.len() implies #[trigger] ds[i].length >= 0 by {
            if i > 0 {
                assert(ds[i] == rest[i - 1]);
            }
        }
    }
}

/// The elements read from the wire are NULL or scalars that decoding can give back.
proof fn lemma_decoded_elems_wf(column: Seq<char>, ty: PgType, s: Seq<u8>, k: int)
    requires
        spec_elems(column, ty, s, k) is Ok,
    ensures
        ({
            let es = spec_elems(column, ty, s, k)->Ok_0;
            forall|i: int| 0 <= i < es.len() ==> #[trigger] scalar_wf(es[i])
        }),
    decreases k,
{
    if k > 0 {
        let (r, n) = spec_read_field(s);
        let cell = r->Ok_0;
        if let Some(q) = cell {
            lemma_decoded_scalar_wf(column, ty, q);
        }
        lemma_decoded_elems_wf(column, ty, s.skip(n), k - 1);
        let es = spec_elems(column, ty, s, k)->Ok_0;
        let rest = spec_elems(column, ty, s.skip(n), k - 1)->Ok_0;
        assert forall|i: int| 0 <= i < es.len() implies #[trigger] scalar_wf(es[i]) by {
            if i > 0 {
                assert(es[i] == rest[i - 1]);
            }
        }
    }
}

/// A decoded field is a value that decoding can give back.
pub proof fn lemma_decoded_field_wf(column: Seq<char>, ty: PgType, nullable: bool, cell: Option<Seq<u8>>)
    requires
        spec_decode_field(column, ty, nullable, cell) is Ok,
    ensures
        value_wf(spec_decode_field(column, ty, nullable, cell)->Ok_0),
{
    if let Some(p) = cell {
        if ty is Array {
            let b = spec_strip_total_len(p);
            let ndim = be_int(b.take(4));
            lemma_decoded_dims_wf(column, ty, b.skip(12), ndim, 1);
            let n = spec_dims(column, ty, b.skip(12), ndim, 1)->Ok_0.2;
            let total = spec_dims(column, ty, b.skip(12), ndim, 1)->Ok_0.1;
            lemma_decoded_elems_wf(column, *ty->Array_0, b.skip(12 + n), total);
        } else {
            lemma_decoded_scalar_wf(column, ty, p);
        }
    }
}

/// The values of a decoded row are values that decoding can give back.
proof fn lemma_decoded_cells_wf(cols: Seq<Column>, cells: Seq<Option<Seq<u8>>>, i: int)
    requires
        spec_decode_cells(cols, cells, i) is Ok,
    ensures
        row_wf(spec_decode_cells(cols, cells, i)->Ok_0),
    decreases cols.len() - i,
{
    if 0 <= i < cols.len() {
        lemma_decoded_field_wf(cols[i].name@, cols[i].ty, cols[i].nullable, cells[i]);
        lemma_decoded_cells_wf(cols, cells, i + 1);
        let vs = spec_decode_cells(cols, cells, i)->Ok_0;
        let rest = spec_decode_cells(cols, cells, i + 1)->Ok_0;
        assert forall|j: int| 0 <= j < vs.len() implies #[trigger] value_wf(vs[j]) by {
            if j > 0 {
                assert(vs[j] == rest[j - 1]);
            }
        }
    }
}

/// The rows decoded from the tuples at the front of `s` hold values that decoding can give
/// back.
#[verifier::spinoff_prover]
#[verifier::rlimit(40)]
proof fn lemma_decoded_rows_wf(cols: Seq<Column>, s: Seq<u8>)
    requires
        spec_rows(cols, s) is Ok,
    ensures
        ({
            let rs = spec_rows(cols, s)->Ok_0;
            forall|i: int| 0 <= i < rs.len() ==> #[trigger] row_wf(rs[i])
        }),
    decreases s.len(),
{
    let (r, n, _) = spec_next(cols, s, false);
    if let Some(Ok(row)) = r {
        let (t, _) = spec_tuple_raw(cols.len() as int, s);
        lemma_decoded_cells_wf(cols, t->Ok_0->Some_0, 0);
        let rs = spec_rows(cols, s)->Ok_0;
        if 0 < n <= s.len() {
            lemma_decoded_rows_wf(cols, s.skip(n));
            let rest = spec_rows(cols, s.skip(n))->Ok_0;
            assert forall|i: int| 0 <= i < rs.len() implies #[trigger] row_wf(rs[i]) by {
                if i > 0 {
                    assert(rs[i] == rest[i - 1]);
                }
            }
        }
    }
}

/// Encoding what decoding gave and decoding that again gives the same rows.
pub proof fn lemma_decode_encode_decode(cols: Seq<Column>, data: Seq<u8>)
    requires
        spec_decode(cols, data) is Ok,
        spec_encode(cols, spec_decode(cols, data)->Ok_0) is Ok,
    ensures
        spec_decode(cols, spec_encode(cols, spec_decode(cols, data)->Ok_0)->Ok_0) == spec_decode(
            cols,
            data,
        ),
{
    let n = spec_header(data)->Ok_0.2;
    lemma_decoded_rows_wf(cols, data.skip(n));
    lemma_decode_encode(cols, spec_decode(cols, data)->Ok_0);
}

/// A blob that the encoder writes for rows that decoding gives back is decoded to those
/// rows and re-encoded byte for byte.
pub proof fn lemma_encode_decode_encode(cols: Seq<Column>, rows: Seq<Seq<ValueV>>)
    requires
        cols.len() <= i16::MAX,
        forall|i: int| 0 <= i < rows.len() ==> #[trigger] row_wf(rows[i]),
        spec_encode(cols, rows) is Ok,
    ensures
        spec_decode(cols, spec_encode(cols, rows)->Ok_0) == Ok::<Seq<Seq<ValueV>>, ErrorV>(rows),
        spec_encode(cols, spec_decode(cols, spec_encode(cols, rows)->Ok_0)->Ok_0) == spec_encode(
            cols,
            rows,
        ),
{
    lemma_decode_encode(cols, rows);
}

/// Encoding one more row appends its tuple, or stops at the first error.
#[verifier::spinoff_prover]
#[verifier::rlimit(40)]
pub proof fn lemma_rows_bytes_push(cols: Seq<Column>, rows: Seq<Seq<ValueV>>, row: Seq<ValueV>)
    ensures
        spec_rows_bytes(cols, rows.push(row)) == match spec_rows_bytes(cols, rows) {
            Err(e) => Err(e),
            Ok(b) => match spec_row_write(cols, row).1 {
                Err(e) => Err(e),
                Ok(_) => Ok::<Seq<u8>, ErrorV>(b + spec_row_write(cols, row).0),
            },
        },
    decreases rows.len(),
{
    let w = spec_row_write(cols, row);
    if rows.len() == 0 {
        assert(rows.push(row).drop_first() =~= Seq::<Seq<ValueV>>::empty());
        assert(rows.push(row)[0] == row);
        assert(w.0 + Seq::<u8>::empty() =~= w.0);
        assert(Seq::<u8>::empty() + w.0 =~= w.0);
    } else {
        let rest = rows.drop_first();
        assert(rows.push(row).drop_first() =~= rest.push(row));
        assert(rows.push(row)[0] == rows[0]);
        lemma_rows_bytes_push(cols, rest, row);
        let (b0, r0) = spec_row_write(cols, rows[0]);
        match r0 {
            Err(_) => {},
            Ok(_) => match spec_rows_bytes(cols, rest) {
                Err(_) => {},
                Ok(rb) => {
                    assert(b0 + (rb + w.0) =~= (b0 + rb) + w.0);
                },
            },
        }
    }
}

/// What an [`Encoder`](crate::Encoder) has appended after the header once it has written
/// `rows`, one `write_row` each.
pub open spec fn spec_written(cols: Seq<Column>, rows: Seq<Seq<ValueV>>) -> Seq<u8>
    decreases rows.len(),
{
    if rows.len() == 0 {
        Seq::empty()
    } else {
        spec_written(cols, rows.drop_last()) + spec_row_write(cols, rows.last()).0
    }
}

/// Every row of `rows` is written without error.
pub open spec fn rows_write_ok(cols: Seq<Column>, rows: Seq<Seq<ValueV>>) -> bool {
    forall|i: int| 0 <= i < rows.len() ==> #[trigger] spec_row_write(cols, rows[i]).1 is Ok
}

proof fn lemma_written_ok(cols: Seq<Column>, rows: Seq<Seq<ValueV>>)
    requires
        rows_write_ok(cols, rows),
    ensures
        spec_rows_bytes(cols, rows) == Ok::<Seq<u8>, ErrorV>(spec_written(cols, rows)),
    decreases rows.len(),
{
    if rows.len() > 0 {
        let pre = rows.drop_last();
        assert forall|i: int| 0 <= i < pre.len() implies #[trigger] spec_row_write(cols, pre[i]).1 is Ok by {
            assert(pre[i] == rows[i]);
        }
        lemma_written_ok(cols, pre);
        lemma_rows_bytes_push(cols, pre, rows.last());
        assert(pre.push(rows.last()) =~= rows);
        assert(spec_row_write(cols, rows[rows.len() - 1]).1 is Ok);
    }
}

proof fn lemma_written_err(cols: Seq<Column>, rows: Seq<Seq<ValueV>>, k: int)
    requires
        0 <= k < rows.len(),
        rows_write_ok(cols, rows.take(k)),
        spec_row_write(cols, rows[k]).1 is Err,
    ensures
        spec_rows_bytes(cols, rows) == Err::<Seq<u8>, ErrorV>(spec_row_write(cols, rows[k]).1->Err_0),
    decreases rows.len(),
{
    let pre = rows.drop_last();
    lemma_rows_bytes_push(cols, pre, rows.last());
    assert(pre.push(rows.last()) =~= rows);
    if k < rows.len() - 1 {
        assert(pre.take(k) =~= rows.take(k));
        assert(pre[k] == rows[k]);
        lemma_written_err(cols, pre, k);
    } else {
        assert(pre =~= rows.take(k));
        lemma_written_ok(cols, pre);
    }
}

/// Writing the rows one at a time and then the footer gives the bytes that encoding them
/// all at once gives; when a row fails, encoding fails with the first failing row's error.
pub proof fn lemma_incremental_encode(cols: Seq<Column>, rows: Seq<Seq<ValueV>>)
    ensures
        rows_write_ok(cols, rows) ==> spec_encode(cols, rows) == Ok::<Seq<u8>, ErrorV>(
            spec_header_bytes() + spec_written(cols, rows) + spec_footer_bytes(),
        ),
        forall|k: int|
            0 <= k < rows.len() && rows_write_ok(cols, #[trigger] rows.take(k)) && spec_row_write(
                cols,
                rows[k],
            ).1 is Err ==> spec_encode(cols, rows) == Err::<Seq<u8>, ErrorV>(
                spec_row_write(cols, rows[k]).1->Err_0,
            ),
{
    if rows_write_ok(cols, rows) {
        lemma_written_ok(cols, rows);
    }
    assert forall|k: int|
        0 <= k < rows.len() && rows_write_ok(cols, #[trigger] rows.take(k)) && spec_row_write(
            cols,
            rows[k],
        ).1 is Err implies spec_encode(cols, rows) == Err::<Seq<u8>, ErrorV>(
            spec_row_write(cols, rows[k]).1->Err_0,
        ) by {
        lemma_written_err(cols, rows, k);
    }
}

/// One step of a decoder that has not read the footer yet.
#[verifier::opaque]
pub open spec fn decoder_step(cols: Seq<Column>, s: Seq<u8>) -> (
    Option<Result<Seq<ValueV>, ErrorV>>,
    int,
    bool,
) {
    spec_next(cols, s, false)
}

/// The rows of the tuples at the front of `s`.
#[verifier::opaque]
pub open spec fn decoded_rows(cols: Seq<Column>, s: Seq<u8>) -> Result<Seq<Seq<ValueV>>, ErrorV> {
    spec_rows(cols, s)
}

/// The bytes that remain after `i` steps of a [`Decoder`](crate::Decoder) that started on `s`.
pub open spec fn spec_after_steps(cols: Seq<Column>, s: Seq<u8>, i: nat) -> Seq<u8>
    decreases i,
{
    if i == 0 {
        s
    } else {
        spec_after_steps(cols, s.skip(decoder_step(cols, s).1), (i - 1) as nat)
    }
}

/// One step of the rows of a decode: the first step's row, then the rows of what follows.
#[verifier::spinoff_prover]
#[verifier::rlimit(60)]
proof fn lemma_rows_step(cols: Seq<Column>, s: Seq<u8>)
    requires
        decoded_rows(cols, s) is Ok,
    ensures
        ({
            let (r, n, fin) = decoder_step(cols, s);
            let rows = decoded_rows(cols, s)->Ok_0;
            &&& r is None ==> rows.len() == 0 && fin
            &&& r is Some ==> r->Some_0 is Ok && decoded_rows(cols, s.skip(n)) is Ok && rows
                == seq![r->Some_0->Ok_0] + decoded_rows(cols, s.skip(n))->Ok_0
        }),
{
    reveal(decoder_step);
    reveal(decoded_rows);
    lemma_next_consumes(cols, s);
}

proof fn lemma_steps(cols: Seq<Column>, s: Seq<u8>, i: nat)
    requires
        decoded_rows(cols, s) is Ok,
        i <= decoded_rows(cols, s)->Ok_0.len(),
    ensures
        i < decoded_rows(cols, s)->Ok_0.len() ==> decoder_step(cols, spec_after_steps(cols, s, i)).0
            == Some(Ok::<Seq<ValueV>, ErrorV>(decoded_rows(cols, s)->Ok_0[i as int])),
        i == decoded_rows(cols, s)->Ok_0.len() ==> decoder_step(cols, spec_after_steps(cols, s, i)).0
            is None && decoder_step(cols, spec_after_steps(cols, s, i)).2,
    decreases i,
{
    lemma_rows_step(cols, s);
    if i > 0 {
        let n = decoder_step(cols, s).1;
        let rows = decoded_rows(cols, s)->Ok_0;
        let rest = decoded_rows(cols, s.skip(n))->Ok_0;
        assert(decoder_step(cols, s).0 is Some);
        if i < rows.len() {
            assert(rows[i as int] == rest[i - 1]);
        }
        lemma_steps(cols, s.skip(n), (i - 1) as nat);
    }
}

/// Once the footer has been read, every step gives `None` and reads nothing.
pub proof fn lemma_finished_steps(cols: Seq<Column>, t: Seq<u8>)
    ensures
        spec_next(cols, t, true) == (None::<Result<Seq<ValueV>, ErrorV>>, 0int, true),
{
}

/// The rows of a decode are what the decoder's steps give one by one: step `i` gives row `i`,
/// and the step after the last row reads the footer and gives `None`.
pub proof fn lemma_decoder_steps(cols: Seq<Column>, s: Seq<u8>, i: nat)
    requires
        spec_rows(cols, s) is Ok,
        i <= spec_rows(cols, s)->Ok_0.len(),
    ensures
        i < spec_rows(cols, s)->Ok_0.len() ==> spec_next(cols, spec_after_steps(cols, s, i), false).0
            == Some(Ok::<Seq<ValueV>, ErrorV>(spec_rows(cols, s)->Ok_0[i as int])),
        i == spec_rows(cols, s)->Ok_0.len() ==> ({
            let (r, _, fin) = spec_next(cols, spec_after_steps(cols, s, i), false);
            &&& r is None
            &&& fin
        }),
{
    reveal(decoded_rows);
    reveal(decoder_step);
    lemma_steps(cols, s, i);
}

} // verus!
