//! Re-encoding a decoded blob: a blob in the form the encoder writes comes back byte for byte.
//!
//! PostgreSQL writes such blobs: flags zero and no header extension, nothing after the footer,
//! arrays whose NULL flag matches their elements and which carry a total-length prefix exactly
//! from two dimensions on, and `numeric` payloads with their full header.
use crate::binary::be::{
    be_int, be_nat, int_be, lemma_be_nat_bound, lemma_int_be_be_int, lemma_nat_be_be_nat,
    lemma_pow256_values, nat_be,
};
use crate::binary::field::spec_read_field;
use crate::binary::reader::spec_fields;
use crate::binary::writer::{spec_field_bytes, spec_fields_bytes};
use crate::codec::array::{
    spec_decode_array, spec_encode_array, spec_oid_of_raw, spec_strip_total_len,
    spec_dims, spec_dims_bytes, spec_dims_product, spec_element_bytes, spec_elems,
    spec_elems_bytes, spec_has_nulls,
};
use crate::binary::constants::spec_magic;
use crate::binary::header::{spec_header, spec_header_bytes};
use crate::binary::reader::spec_tuple_raw;
use crate::binary::writer::spec_footer_bytes;
use crate::codec::decode::{spec_decode_element, spec_decode_field, spec_decode_scalar};
use crate::codec::encode::{
    spec_encode_element, spec_encode_field, spec_encode_scalar, spec_value_matches_type,
};
use crate::schema::Column;
use crate::{
    lemma_fields_consumed, spec_decode, spec_decode_cells, spec_encode, spec_encode_cells,
    spec_row_write, spec_rows, spec_rows_bytes,
};
use crate::error::ErrorV;
use crate::schema::{lemma_oid_of_from_oid, spec_from_oid, PgType};
use crate::value::pgtypes::numeric::{
    spec_decode_numeric, spec_digits, spec_digits_bytes, spec_encode_numeric, spec_sign,
    spec_sign_code,
};
use crate::value::pgtypes::ArrayDimension;
use crate::value::ValueV;
use vstd::prelude::*;
use vstd::utf8::{decode_utf8_encode_utf8, encode_utf8};

verus! {

/// A scalar payload that the encoder writes back as it was read: a `numeric` holds its full
/// eight-byte header (a shorter all-zero payload is read as zero and written in full).
pub open spec fn canonical_scalar(ty: PgType, p: Seq<u8>) -> bool {
    ty is Numeric ==> p.len() >= 8
}

/// Bytes of a fixed width are the two's complement encoding of the integer they denote, which
/// lies in the width's range.
proof fn lemma_fixed_int(p: Seq<u8>)
    requires
        p.len() == 2 || p.len() == 4 || p.len() == 8,
    ensures
        int_be(be_int(p), p.len()) == p,
        p.len() == 2 ==> i16::MIN <= be_int(p) <= i16::MAX,
        p.len() == 4 ==> i32::MIN <= be_int(p) <= i32::MAX,
        p.len() == 8 ==> i64::MIN <= be_int(p) <= i64::MAX,
{
    lemma_int_be_be_int(p);
    lemma_pow256_values();
}

/// Bytes of a fixed width are the encoding of the natural number they denote.
proof fn lemma_fixed_nat(p: Seq<u8>)
    requires
        p.len() == 4 || p.len() == 8,
    ensures
        nat_be(be_nat(p), p.len()) == p,
        p.len() == 4 ==> be_nat(p) <= u32::MAX,
        p.len() == 8 ==> be_nat(p) <= u64::MAX,
{
    lemma_nat_be_be_nat(p);
    lemma_be_nat_bound(p);
    lemma_pow256_values();
}

/// The digit limbs read from a `numeric` payload are written back as the bytes they came from.
proof fn lemma_digits_reencode(p: Seq<u8>, count: int)
    requires
        0 <= count,
        8 + 2 * count <= p.len(),
    ensures
        spec_digits_bytes(spec_digits(p, count)) == p.subrange(8, 8 + 2 * count),
    decreases count,
{
    if count > 0 {
        let ds = spec_digits(p, count);
        lemma_digits_reencode(p, count - 1);
        assert(ds.drop_last() =~= spec_digits(p, count - 1));
        let q = p.subrange(8 + 2 * (count - 1), 8 + 2 * count);
        lemma_fixed_int(q);
        assert(ds.last() as int == be_int(q));
        assert(p.subrange(8, 8 + 2 * (count - 1)) + q =~= p.subrange(8, 8 + 2 * count));
    }
}

/// A decoded `numeric` with its full header is written back as the payload it came from.
proof fn lemma_numeric_reencode(column: Seq<char>, ty: PgType, p: Seq<u8>)
    requires
        spec_decode_numeric(column, ty, p) is Ok,
        p.len() >= 8,
    ensures
        spec_encode_numeric(spec_decode_numeric(column, ty, p)->Ok_0) == p,
{
    let n = spec_decode_numeric(column, ty, p)->Ok_0;
    let a = p.take(2);
    let b = p.subrange(2, 4);
    let c = p.subrange(4, 6);
    let d = p.subrange(6, 8);
    lemma_fixed_int(a);
    lemma_fixed_int(b);
    lemma_fixed_int(c);
    lemma_fixed_int(d);
    let raw = be_int(c);
    assert(spec_sign_code(spec_sign(raw)->Some_0) as int == raw);
    let nd = be_int(a);
    let count = if nd < 0 { 0 } else { nd };
    lemma_digits_reencode(p, count);
    assert(p =~= a + b + c + d + p.subrange(8, 8 + 2 * count));
}

/// A decoded scalar whose payload is canonical for its type is encoded back to that payload.
pub proof fn lemma_scalar_reencode(column: Seq<char>, ty: PgType, p: Seq<u8>)
    requires
        !(ty is Array),
        spec_decode_scalar(column, ty, p) is Ok,
        canonical_scalar(ty, p),
    ensures
        spec_value_matches_type(spec_decode_scalar(column, ty, p)->Ok_0, ty),
        spec_encode_scalar(column, ty, spec_decode_scalar(column, ty, p)->Ok_0) == Ok::<
            Seq<u8>,
            ErrorV,
        >(p),
{
    broadcast use decode_utf8_encode_utf8;

    match ty {
        PgType::Char | PgType::Int2 | PgType::Int4 | PgType::Int8 | PgType::Time
        | PgType::Money => {
            lemma_fixed_int(p);
        },
        PgType::Date => {
            lemma_fixed_int(p);
            let w = be_int(p) as i32;
            assert(w.wrapping_add(10957).wrapping_sub(10957) == w);
        },
        PgType::Timestamp | PgType::Timestamptz => {
            lemma_fixed_int(p);
            let w = be_int(p) as i64;
            assert(w.wrapping_add(946684800000000).wrapping_sub(946684800000000) == w);
        },
        PgType::Float4 | PgType::Float8 | PgType::Oid => {
            lemma_fixed_nat(p);
        },
        PgType::Bool => {
            assert(p =~= seq![p[0]]);
        },
        PgType::Timetz => {
            lemma_fixed_int(p.take(8));
            lemma_fixed_int(p.skip(8));
            assert(p =~= p.take(8) + p.skip(8));
        },
        PgType::Interval => {
            lemma_fixed_int(p.take(8));
            lemma_fixed_int(p.subrange(8, 12));
            lemma_fixed_int(p.skip(12));
            assert(p =~= p.take(8) + p.subrange(8, 12) + p.skip(12));
        },
        PgType::Jsonb => {
            assert(p =~= seq![p[0]] + p.skip(1));
        },
        PgType::Numeric => {
            lemma_numeric_reencode(column, ty, p);
        },
        _ => {},
    }
}

/// A field envelope read from the front of `s` is written back as the bytes it came from.
proof fn lemma_field_envelope(s: Seq<u8>)
    requires
        spec_read_field(s).0 is Ok,
    ensures
        ({
            let (r, n) = spec_read_field(s);
            &&& spec_element_bytes(r->Ok_0) == s.take(n)
            &&& spec_field_bytes(r->Ok_0) == Ok::<Seq<u8>, ErrorV>(s.take(n))
            &&& r->Ok_0 matches Some(q) ==> q.len() <= i32::MAX
            &&& 4 <= n <= s.len()
        }),
{
    let (r, n) = spec_read_field(s);
    lemma_fixed_int(s.take(4));
    if let Some(q) = r->Ok_0 {
        assert(s.take(4) + q =~= s.take(n));
    }
}

/// The field envelopes of a tuple are written back as the bytes they came from.
proof fn lemma_fields_envelopes(s: Seq<u8>, k: int)
    requires
        spec_fields(s, k).0 is Ok,
    ensures
        ({
            let (r, m) = spec_fields(s, k);
            &&& spec_fields_bytes(r->Ok_0) == (s.take(m), None::<ErrorV>)
            &&& 0 <= m <= s.len()
            &&& forall|i: int|
                0 <= i < r->Ok_0.len() ==> (#[trigger] r->Ok_0[i] matches Some(q) ==> q.len()
                    <= i32::MAX)
        }),
    decreases k,
{
    let (r, m) = spec_fields(s, k);
    if k <= 0 {
        assert(s.take(0) =~= Seq::<u8>::empty());
    } else {
        let (r1, n) = spec_read_field(s);
        lemma_field_envelope(s);
        lemma_fields_envelopes(s.skip(n), k - 1);
        let (r2, m2) = spec_fields(s.skip(n), k - 1);
        let cells = r->Ok_0;
        assert(cells.drop_first() =~= r2->Ok_0);
        assert(s.take(n) + s.skip(n).take(m2) =~= s.take(m));
        assert forall|i: int| 0 <= i < cells.len() implies (#[trigger] cells[i] matches Some(q)
            ==> q.len() <= i32::MAX) by {
            if i > 0 {
                assert(cells[i] == r2->Ok_0[i - 1]);
            }
        }
    }
}

/// The dimension headers read from the front of `s` are written back as the bytes they came
/// from, and their lengths multiply, as the encoder multiplies them, to the element count.
proof fn lemma_dims_reencode(column: Seq<char>, ty: PgType, s: Seq<u8>, k: int, acc: int)
    requires
        spec_dims(column, ty, s, k, acc) is Ok,
        acc >= 0,
    ensures
        ({
            let (ds, t, n) = spec_dims(column, ty, s, k, acc)->Ok_0;
            &&& ds.len() == (if k < 0 { 0 } else { k })
            &&& n == 8 * ds.len()
            &&& n <= s.len()
            &&& spec_dims_bytes(ds) == s.take(n)
            &&& spec_dims_product(ds, acc) == Some(t)
            &&& 0 <= t
        }),
    decreases k,
{
    let (ds, t, n) = spec_dims(column, ty, s, k, acc)->Ok_0;
    if k <= 0 {
        assert(ds =~= Seq::<ArrayDimension>::empty());
        assert(s.take(0) =~= Seq::<u8>::empty());
    } else {
        let a = s.take(4);
        let b = s.skip(4).take(4);
        lemma_fixed_int(a);
        lemma_fixed_int(b);
        let length = be_int(a);
        assert(acc * length >= 0) by (nonlinear_arith)
            requires
                acc >= 0,
                length >= 0,
        ;
        lemma_dims_reencode(column, ty, s.skip(8), k - 1, acc * length);
        let (rest, t2, n2) = spec_dims(column, ty, s.skip(8), k - 1, acc * length)->Ok_0;
        assert(ds.drop_first() =~= rest);
        assert(ds[0].length == length as i32);
        assert(a + b + s.skip(8).take(n2) =~= s.take(n));
    }
}

/// Elements that decode come from envelopes that read.
proof fn lemma_elems_fields(column: Seq<char>, et: PgType, s: Seq<u8>, k: int)
    requires
        spec_elems(column, et, s, k) is Ok,
    ensures
        spec_fields(s, k).0 is Ok,
    decreases k,
{
    if k > 0 {
        let (r1, n) = spec_read_field(s);
        lemma_elems_fields(column, et, s.skip(n), k - 1);
    }
}

/// A decoded element is encoded back to its envelope's content; it is NULL exactly when the
/// envelope is.
proof fn lemma_element_reencode(column: Seq<char>, et: PgType, cell: Option<Seq<u8>>)
    requires
        !(et is Array),
        spec_decode_element(column, et, cell) is Ok,
        cell matches Some(q) ==> canonical_scalar(et, q),
    ensures
        spec_encode_element(column, et, spec_decode_element(column, et, cell)->Ok_0) == Ok::<
            Option<Seq<u8>>,
            ErrorV,
        >(cell),
        spec_decode_element(column, et, cell)->Ok_0 is Null <==> cell is None,
{
    if let Some(q) = cell {
        lemma_scalar_reencode(column, et, q);
    }
}

/// The elements read from the front of `s` are written back as the bytes they came from, when
/// each payload is canonical; and an element is NULL exactly when its envelope is.
#[verifier::spinoff_prover]
#[verifier::rlimit(60)]
proof fn lemma_elems_reencode(column: Seq<char>, et: PgType, s: Seq<u8>, k: int)
    requires
        !(et is Array),
        spec_elems(column, et, s, k) is Ok,
        spec_fields(s, k).0 is Ok,
        forall|i: int|
            0 <= i < spec_fields(s, k).0->Ok_0.len() ==> (#[trigger] spec_fields(s, k).0->Ok_0[i] matches Some(
                q,
            ) ==> canonical_scalar(et, q)),
    ensures
        ({
            let es = spec_elems(column, et, s, k)->Ok_0;
            let (r, m) = spec_fields(s, k);
            &&& es.len() == r->Ok_0.len()
            &&& es.len() == (if k < 0 { 0 } else { k })
            &&& spec_elems_bytes(column, et, es) == Ok::<Seq<u8>, ErrorV>(s.take(m))
            &&& forall|i: int| 0 <= i < es.len() ==> (#[trigger] es[i] is Null <==> r->Ok_0[i] is None)
            &&& 0 <= m <= s.len()
        }),
    decreases k,
{
    if k <= 0 {
        assert(s.take(0) =~= Seq::<u8>::empty());
    } else {
        let (r1, n) = spec_read_field(s);
        let cell = r1->Ok_0;
        lemma_field_envelope(s);
        lemma_elems_fields(column, et, s.skip(n), k - 1);
        let (r, m) = spec_fields(s, k);
        let (r2, m2) = spec_fields(s.skip(n), k - 1);
        let cells = r->Ok_0;
        assert(cells =~= seq![cell] + r2->Ok_0);
        assert forall|i: int|
            0 <= i < spec_fields(s.skip(n), k - 1).0->Ok_0.len() implies (
            #[trigger] spec_fields(s.skip(n), k - 1).0->Ok_0[i] matches Some(q) ==> canonical_scalar(et, q)) by {
            assert(cells[i + 1] == r2->Ok_0[i]);
        }
        lemma_elems_reencode(column, et, s.skip(n), k - 1);
        let es = spec_elems(column, et, s, k)->Ok_0;
        let rest = spec_elems(column, et, s.skip(n), k - 1)->Ok_0;
        assert(cells[0] == cell);
        lemma_element_reencode(column, et, cell);
        assert(es =~= seq![es[0]] + rest);
        assert(es[0] == spec_decode_element(column, et, cell)->Ok_0);
        assert(es.drop_first() =~= rest);
        assert(spec_element_bytes(cell) == s.take(n));
        assert(s.take(n) + s.skip(n).take(m2) =~= s.take(m));
        assert(spec_elems_bytes(column, et, es) == Ok::<Seq<u8>, ErrorV>(s.take(m)));
        assert forall|i: int| 0 <= i < es.len() implies (#[trigger] es[i] is Null <==> cells[i] is None) by {
            if i > 0 {
                assert(es[i] == rest[i - 1]);
                assert(cells[i] == r2->Ok_0[i - 1]);
            }
        }
    }
}

/// An array payload in the form the encoder writes: the total-length prefix stands exactly
/// when there are two dimensions or more, the NULL flag is 1 exactly when some element is
/// NULL, nothing follows the last element, and every element payload is canonical.
pub open spec fn canonical_array(column: Seq<char>, ty: PgType, p: Seq<u8>) -> bool {
    let et = *ty->Array_0;
    let b = spec_strip_total_len(p);
    let ndim = be_int(b.take(4));
    let has_nulls = be_int(b.skip(4).take(4));
    let (dims, total, n) = spec_dims(column, ty, b.skip(12), ndim, 1)->Ok_0;
    let (cells, m) = spec_fields(b.skip(12 + n), total);
    &&& (b == p) == (ndim < 2)
    &&& 12 + n + m == b.len()
    &&& (has_nulls == 1) == (exists|i: int|
        0 <= i < cells->Ok_0.len() && #[trigger] cells->Ok_0[i] is None)
    &&& forall|i: int|
        0 <= i < cells->Ok_0.len() ==> (#[trigger] cells->Ok_0[i] matches Some(q) ==> canonical_scalar(
            et,
            q,
        ))
}

/// A decoded array whose payload is canonical is encoded back to that payload.
#[verifier::spinoff_prover]
#[verifier::rlimit(60)]
pub proof fn lemma_array_reencode(column: Seq<char>, ty: PgType, p: Seq<u8>)
    requires
        ty is Array,
        spec_decode_array(column, ty, p) is Ok,
        canonical_array(column, ty, p),
        p.len() <= i32::MAX,
    ensures
        spec_value_matches_type(spec_decode_array(column, ty, p)->Ok_0, ty),
        spec_encode_array(column, ty, spec_decode_array(column, ty, p)->Ok_0) == Ok::<
            Seq<u8>,
            ErrorV,
        >(p),
{
    let et = *ty->Array_0;
    let v = spec_decode_array(column, ty, p)->Ok_0;
    let b = spec_strip_total_len(p);
    let ndim = be_int(b.take(4));
    let has_nulls = be_int(b.skip(4).take(4));
    let raw = be_int(b.skip(8).take(4));
    let oid = spec_oid_of_raw(raw);
    let (dims, total, n) = spec_dims(column, ty, b.skip(12), ndim, 1)->Ok_0;
    let es = spec_elems(column, et, b.skip(12 + n), total)->Ok_0;
    assert(v == ValueV::Array(et, dims, es));
    lemma_fixed_int(b.take(4));
    lemma_fixed_int(b.skip(4).take(4));
    lemma_fixed_int(b.skip(8).take(4));
    lemma_fixed_int(p.take(4));
    lemma_oid_of_from_oid(oid);
    assert(spec_from_oid(oid) == Some(et));
    assert(oid <= 3802);
    assert(raw == oid as int);
    lemma_dims_reencode(column, ty, b.skip(12), ndim, 1);
    lemma_elems_fields(column, et, b.skip(12 + n), total);
    lemma_elems_reencode(column, et, b.skip(12 + n), total);
    let (cells, m) = spec_fields(b.skip(12 + n), total);
    let eb = b.skip(12 + n).take(m);
    assert(eb =~= b.skip(12 + n));
    assert(spec_has_nulls(es) == (has_nulls == 1)) by {
        if spec_has_nulls(es) {
            let i = choose|i: int| 0 <= i < es.len() && es[i] is Null;
            assert(cells->Ok_0[i] is None);
        }
        if has_nulls == 1 {
            let i = choose|i: int| 0 <= i < cells->Ok_0.len() && #[trigger] cells->Ok_0[i] is None;
            assert(es[i] is Null);
        }
    }
    let body = int_be((dims.len() as i32) as int, 4) + int_be(
        if spec_has_nulls(es) {
            1
        } else {
            0
        },
        4,
    ) + int_be((oid as i32) as int, 4) + spec_dims_bytes(dims) + eb;
    assert(body =~= b) by {
        assert(b =~= b.take(4) + b.skip(4).take(4) + b.skip(8).take(4) + b.skip(12).take(n) + b.skip(
            12 + n,
        ));
    }
    if dims.len() >= 2 {
        assert(b != p);
        assert(b == p.skip(4));
        assert(be_int(p.take(4)) == b.len()) by {
            lemma_pow256_values();
        }
        assert(p =~= p.take(4) + b);
    }
}

/// A field payload in the form the encoder writes, for a column of type `ty`.
pub open spec fn canonical_payload(column: Seq<char>, ty: PgType, p: Seq<u8>) -> bool {
    if ty is Array {
        canonical_array(column, ty, p)
    } else {
        canonical_scalar(ty, p)
    }
}

/// A decoded field whose payload is canonical is encoded back to the field it came from.
pub proof fn lemma_field_reencode(column: Seq<char>, ty: PgType, nullable: bool, cell: Option<Seq<u8>>)
    requires
        spec_decode_field(column, ty, nullable, cell) is Ok,
        cell matches Some(p) ==> canonical_payload(column, ty, p) && p.len() <= i32::MAX,
    ensures
        spec_encode_field(column, ty, nullable, spec_decode_field(column, ty, nullable, cell)->Ok_0)
            == Ok::<Option<Seq<u8>>, ErrorV>(cell),
{
    if let Some(p) = cell {
        if ty is Array {
            lemma_array_reencode(column, ty, p);
        } else {
            lemma_scalar_reencode(column, ty, p);
        }
    }
}

/// Decoding the cells of a tuple from column `i` on gives one value per column, each the
/// decoding of its cell.
proof fn lemma_decode_cells_shape(cols: Seq<Column>, cells: Seq<Option<Seq<u8>>>, i: int)
    requires
        0 <= i <= cols.len(),
        spec_decode_cells(cols, cells, i) is Ok,
    ensures
        spec_decode_cells(cols, cells, i)->Ok_0.len() == cols.len() - i,
        forall|j: int|
            0 <= j < cols.len() - i ==> spec_decode_field(
                cols[i + j].name@,
                cols[i + j].ty,
                cols[i + j].nullable,
                cells[i + j],
            ) == Ok::<ValueV, ErrorV>(#[trigger] spec_decode_cells(cols, cells, i)->Ok_0[j]),
    decreases cols.len() - i,
{
    if i < cols.len() {
        lemma_decode_cells_shape(cols, cells, i + 1);
        let vs = spec_decode_cells(cols, cells, i)->Ok_0;
        let rest = spec_decode_cells(cols, cells, i + 1)->Ok_0;
        assert forall|j: int| 0 <= j < cols.len() - i implies spec_decode_field(
            cols[i + j].name@,
            cols[i + j].ty,
            cols[i + j].nullable,
            cells[i + j],
        ) == Ok::<ValueV, ErrorV>(#[trigger] vs[j]) by {
            if j > 0 {
                assert(vs[j] == rest[j - 1]);
                assert(i + 1 + (j - 1) == i + j);
            }
        }
    }
}

/// Encoding values that each encode to their cell gives the cells back.
proof fn lemma_encode_cells_back(
    cols: Seq<Column>,
    cells: Seq<Option<Seq<u8>>>,
    vals: Seq<ValueV>,
    i: int,
)
    requires
        0 <= i <= cols.len(),
        cells.len() == cols.len(),
        forall|j: int|
            i <= j < cols.len() ==> spec_encode_field(
                cols[j].name@,
                cols[j].ty,
                cols[j].nullable,
                #[trigger] vals[j],
            ) == Ok::<Option<Seq<u8>>, ErrorV>(cells[j]),
    ensures
        spec_encode_cells(cols, vals, i) == Ok::<Seq<Option<Seq<u8>>>, ErrorV>(cells.skip(i)),
    decreases cols.len() - i,
{
    if i < cols.len() {
        assert(spec_encode_field(cols[i].name@, cols[i].ty, cols[i].nullable, vals[i]) == Ok::<
            Option<Seq<u8>>,
            ErrorV,
        >(cells[i]));
        lemma_encode_cells_back(cols, cells, vals, i + 1);
        assert(seq![cells[i]] + cells.skip(i + 1) =~= cells.skip(i));
    } else {
        assert(cells.skip(i) =~= Seq::<Option<Seq<u8>>>::empty());
    }
}

/// Every field of a tuple holds a canonical payload for its column.
pub open spec fn canonical_cells(cols: Seq<Column>, cells: Seq<Option<Seq<u8>>>) -> bool {
    forall|i: int|
        0 <= i < cells.len() ==> (#[trigger] cells[i] matches Some(p) ==> canonical_payload(
            cols[i].name@,
            cols[i].ty,
            p,
        ))
}

/// A decoded tuple whose fields are canonical is written back as the bytes it came from.
#[verifier::spinoff_prover]
#[verifier::rlimit(40)]
proof fn lemma_tuple_reencode(cols: Seq<Column>, s: Seq<u8>)
    requires
        spec_tuple_raw(cols.len() as int, s).0 matches Ok(Some(cells)) && spec_decode_cells(
            cols,
            cells,
            0,
        ) is Ok && canonical_cells(cols, cells),
    ensures
        ({
            let (t, n) = spec_tuple_raw(cols.len() as int, s);
            let vals = spec_decode_cells(cols, t->Ok_0->Some_0, 0)->Ok_0;
            &&& spec_row_write(cols, vals) == (s.take(n), Ok::<(), ErrorV>(()))
            &&& 2 <= n <= s.len()
        }),
{
    let (t, n) = spec_tuple_raw(cols.len() as int, s);
    let cells = t->Ok_0->Some_0;
    let vals = spec_decode_cells(cols, cells, 0)->Ok_0;
    let c = be_int(s.take(2));
    lemma_fixed_int(s.take(2));
    let (r, m) = spec_fields(s.skip(2), c);
    lemma_fields_envelopes(s.skip(2), c);
    lemma_fields_consumed(s.skip(2), c);
    lemma_decode_cells_shape(cols, cells, 0);
    assert forall|j: int| 0 <= j < cols.len() implies spec_encode_field(
        cols[j].name@,
        cols[j].ty,
        cols[j].nullable,
        #[trigger] vals[j],
    ) == Ok::<Option<Seq<u8>>, ErrorV>(cells[j]) by {
        assert(0 + j == j);
        lemma_field_reencode(cols[j].name@, cols[j].ty, cols[j].nullable, cells[j]);
    }
    lemma_encode_cells_back(cols, cells, vals, 0);
    assert(cells.skip(0) =~= cells);
    assert(s.take(2) + s.skip(2).take(m) =~= s.take(n));
}

/// The tuples at the front of `s` are in the form the encoder writes: each one's fields are
/// canonical, and the footer ends the bytes.
pub open spec fn canonical_tuples(cols: Seq<Column>, s: Seq<u8>) -> bool
    decreases s.len(),
{
    let (t, n) = spec_tuple_raw(cols.len() as int, s);
    match t {
        Ok(None) => s.len() == 2,
        Ok(Some(cells)) => canonical_cells(cols, cells) && (0 < n <= s.len() ==> canonical_tuples(
            cols,
            s.skip(n),
        )),
        Err(_) => false,
    }
}

/// Decoded canonical tuples are written back, with the footer, as the bytes they came from.
#[verifier::spinoff_prover]
#[verifier::rlimit(40)]
proof fn lemma_rows_reencode(cols: Seq<Column>, s: Seq<u8>)
    requires
        spec_rows(cols, s) is Ok,
        canonical_tuples(cols, s),
    ensures
        spec_rows_bytes(cols, spec_rows(cols, s)->Ok_0) is Ok,
        spec_rows_bytes(cols, spec_rows(cols, s)->Ok_0)->Ok_0 + spec_footer_bytes() == s,
    decreases s.len(),
{
    let (t, n) = spec_tuple_raw(cols.len() as int, s);
    let rows = spec_rows(cols, s)->Ok_0;
    lemma_fixed_int(s.take(2));
    match t {
        Ok(None) => {
            assert(rows =~= Seq::<Seq<ValueV>>::empty());
            assert(s.take(2) =~= s);
            assert(Seq::<u8>::empty() + spec_footer_bytes() =~= spec_footer_bytes());
        },
        Ok(Some(cells)) => {
            lemma_tuple_reencode(cols, s);
            lemma_rows_reencode(cols, s.skip(n));
            let row = spec_decode_cells(cols, cells, 0)->Ok_0;
            let rest = spec_rows(cols, s.skip(n))->Ok_0;
            assert(rows =~= seq![row] + rest);
            assert(rows.drop_first() =~= rest);
            let rb = spec_rows_bytes(cols, rest)->Ok_0;
            assert(s.take(n) + rb + spec_footer_bytes() =~= s.take(n) + (rb + spec_footer_bytes()));
            assert(s.take(n) + s.skip(n) =~= s);
        },
        Err(_) => {},
    }
}

/// A blob in the form the encoder writes: flags zero, no header extension, and canonical
/// tuples up to a footer that ends the blob.
pub open spec fn canonical(cols: Seq<Column>, data: Seq<u8>) -> bool {
    &&& spec_header(data) matches Ok((flags, ext, n)) && flags == 0 && ext.len() == 0
        && canonical_tuples(cols, data.skip(n))
}

/// A header with flags zero and no extension is the header the encoder writes.
proof fn lemma_canonical_header(data: Seq<u8>)
    requires
        spec_header(data) matches Ok((flags, ext, n)) && flags == 0 && ext.len() == 0,
    ensures
        spec_header(data)->Ok_0.2 == 19,
        data.len() >= 19,
        data.take(19) == spec_header_bytes(),
{
    let s1 = data.skip(11);
    let s2 = s1.skip(4);
    lemma_fixed_int(s1.take(4));
    lemma_fixed_int(s2.take(4));
    assert(be_int(s2.take(4)) == 0);
    assert(be_int(s1.take(4)) == 0);
    assert(int_be(0, 4) =~= seq![0u8, 0u8, 0u8, 0u8]) by {
        reveal_with_fuel(nat_be, 5);
    }
    assert(spec_magic().take(11) =~= spec_magic());
    assert(data.take(11) == spec_magic());
    assert(data.take(19) =~= data.take(11) + s1.take(4) + s2.take(4));
}

/// Encoding the rows decoded from a canonical blob gives the blob back, byte for byte.
pub proof fn lemma_reencode_canonical(cols: Seq<Column>, data: Seq<u8>)
    requires
        spec_decode(cols, data) is Ok,
        canonical(cols, data),
    ensures
        spec_encode(cols, spec_decode(cols, data)->Ok_0) == Ok::<Seq<u8>, ErrorV>(data),
{
    lemma_canonical_header(data);
    assert(spec_decode(cols, data) == spec_rows(cols, data.skip(19)));
    lemma_rows_reencode(cols, data.skip(19));
    let rb = spec_rows_bytes(cols, spec_decode(cols, data)->Ok_0)->Ok_0;
    assert(data =~= data.take(19) + data.skip(19));
    assert(spec_header_bytes() + rb + spec_footer_bytes() =~= spec_header_bytes() + (rb
        + spec_footer_bytes()));
}

} // verus!
