//! PostgreSQL array binary format decode/encode.
use crate::binary::be::{be_int, int_be, push_i32, read_i32_at};
use crate::binary::buffer_view::{eof, lemma_skip_skip, BufferView};
use crate::binary::field::{spec_read_field, FieldCell, FieldReader};
use crate::codec::decode::{spec_decode_element, FieldDecoder};
use crate::codec::encode::{spec_encode_element, type_mismatch, FieldEncoder};
use crate::binary::writer::push_all;
use crate::error::{ip, Error, ErrorV};
use crate::schema::{spec_from_oid, spec_oid, PgType};
use crate::value::pgtypes::ArrayDimension;
use crate::value::pgtypes::PgArray;
use crate::value::{lemma_array_view, value_result, PgValue, ValueV};
use vstd::prelude::*;

verus! {

/// The array body after its optional total-length prefix: the prefix is taken off when it
/// equals the number of bytes after it.
pub open spec fn spec_strip_total_len(p: Seq<u8>) -> Seq<u8> {
    let v = be_int(p.take(4));
    let total = if v >= 0 {
        v
    } else {
        v + usize::MAX + 1
    };
    if total == p.len() - 4 {
        p.skip(4)
    } else {
        p
    }
}

/// Reading `k` dimensions from the front of `s` while multiplying their lengths into
/// `total`: the dimensions, the element count, and the bytes consumed.
pub open spec fn spec_dims(column: Seq<char>, ty: PgType, s: Seq<u8>, k: int, total: int) -> Result<
    (Seq<ArrayDimension>, int, int),
    ErrorV,
>
    decreases k,
{
    if k <= 0 {
        if total > usize::MAX {
            Err(ip(column, ty, "array element count overflow"@))
        } else {
            Ok((Seq::empty(), total, 0))
        }
    } else if s.len() < 4 {
        Err(eof(4, s))
    } else if s.skip(4).len() < 4 {
        Err(eof(4, s.skip(4)))
    } else {
        let length = be_int(s.take(4));
        let lower = be_int(s.skip(4).take(4));
        if length < 0 {
            Err(ip(column, ty, "negative array dimension length"@))
        } else if total * length > i64::MAX {
            Err(ip(column, ty, "array element count overflow"@))
        } else {
            match spec_dims(column, ty, s.skip(8), k - 1, total * length) {
                Err(e) => Err(e),
                Ok((ds, t, n)) => Ok(
                    (
                        seq![ArrayDimension { length: length as i32, lower_bound: lower as i32 }]
                            + ds,
                        t,
                        8 + n,
                    ),
                ),
            }
        }
    }
}

/// Reading and decoding `k` element fields from the front of `s`.
pub open spec fn spec_elems(column: Seq<char>, ty: PgType, s: Seq<u8>, k: int) -> Result<
    Seq<ValueV>,
    ErrorV,
>
    decreases k,
{
    if k <= 0 {
        Ok(Seq::empty())
    } else {
        let (r, n) = spec_read_field(s);
        match r {
            Err(e) => Err(e),
            Ok(cell) => match spec_decode_element(column, ty, cell) {
                Err(e) => Err(e),
                Ok(v) => match spec_elems(column, ty, s.skip(n), k - 1) {
                    Err(e) => Err(e),
                    Ok(vs) => Ok(seq![v] + vs),
                },
            },
        }
    }
}

/// The OID in the wire's `int32` slot, read as unsigned.
pub open spec fn spec_oid_of_raw(raw: int) -> u32 {
    (if raw < 0 {
        raw + 0x1_0000_0000
    } else {
        raw
    }) as u32
}

/// Decoding the payload `p` of a non-NULL field of array type `ty`.
pub open spec fn spec_decode_array(column: Seq<char>, ty: PgType, p: Seq<u8>) -> Result<ValueV, ErrorV> {
    match ty {
        PgType::Array(inner) => {
            let et = *inner;
            if p.len() < 4 {
                Err(ip(column, ty, "array payload too short"@))
            } else {
                let b = spec_strip_total_len(p);
                if b.len() < 4 {
                    Err(eof(4, b))
                } else if be_int(b.take(4)) < 1 {
                    Err(ip(column, ty, "array ndim must be at least 1"@))
                } else if b.skip(4).len() < 4 {
                    Err(eof(4, b.skip(4)))
                } else if b.skip(8).len() < 4 {
                    Err(eof(4, b.skip(8)))
                } else {
                    let ndim = be_int(b.take(4));
                    let has_nulls = be_int(b.skip(4).take(4));
                    let oid = spec_oid_of_raw(be_int(b.skip(8).take(4)));
                    match spec_from_oid(oid) {
                        None => Err(ErrorV::UnsupportedType(ty)),
                        Some(pt) => if et != pt {
                            Err(ErrorV::ArrayElementOidMismatch { column, expected: et, element_oid: oid })
                        } else {
                            match spec_dims(column, ty, b.skip(12), ndim, 1) {
                                Err(e) => Err(e),
                                Ok((dims, total, n)) => if has_nulls != 0 && has_nulls != 1 {
                                    Err(ErrorV::InvalidArrayHasNulls { column, got: has_nulls as i32 })
                                } else {
                                    match spec_elems(column, et, b.skip(12 + n), total) {
                                        Err(e) => Err(e),
                                        Ok(es) => Ok(ValueV::Array(et, dims, es)),
                                    }
                                },
                            }
                        },
                    }
                }
            }
        },
        _ => Err(ip(column, ty, "not an array type"@)),
    }
}

pub(crate) fn decode_array(decoder: &FieldDecoder<'_>, cell: &FieldCell<'_>) -> (r: Result<PgValue, Error>)
    requires
        cell.wf(),
        !cell.is_null,
    ensures
        value_result(r) == spec_decode_array(decoder.column@, *decoder.ty, cell.payload.rest()),
{
    let element_ty: &PgType = match decoder.ty {
        PgType::Array(inner) => &**inner,
        _ => {
            return Err(decoder.invalid_payload("not an array type"));
        },
    };
    if cell.is_null {
        return Ok(PgValue::Null);
    }
    let body = strip_optional_total_len(decoder, cell.payload)?;
    let mut reader = FieldReader::from_view(BufferView::new(body));
    let ghost b = body@;
    let ndim = reader.read_i32()?;
    if ndim < 1 {
        return Err(decoder.invalid_payload("array ndim must be at least 1"));
    }
    assert(reader.data.rest() =~= b.skip(4));
    let has_nulls = reader.read_i32()?;
    assert(reader.data.rest() =~= b.skip(8));
    let raw_oid = reader.read_i32()?;
    assert(reader.data.rest() =~= b.skip(12));
    let element_oid: u32 = if raw_oid < 0 {
        (raw_oid as i64 + 0x1_0000_0000) as u32
    } else {
        raw_oid as u32
    };
    let payload_element_ty = match PgType::from_oid(element_oid) {
        Some(t) => t,
        None => {
            return Err(Error::UnsupportedType(decoder.ty.clone()));
        },
    };
    if *element_ty != payload_element_ty {
        return Err(
            Error::ArrayElementOidMismatch {
                column: String::from_str(decoder.column),
                expected: element_ty.clone(),
                element_oid,
            },
        );
    }
    let (dimensions, total_elements) = parse_dimensions(decoder, &mut reader, ndim)?;
    if has_nulls != 0 && has_nulls != 1 {
        return Err(
            Error::InvalidArrayHasNulls { column: String::from_str(decoder.column), got: has_nulls },
        );
    }
    let element_decoder = FieldDecoder::new(decoder.column, element_ty, true);
    let elements = decode_elements(&element_decoder, &mut reader, total_elements)?;
    let arr = PgArray::new(element_ty.clone(), dimensions, elements);
    proof {
        lemma_array_view(arr);
    }
    Ok(PgValue::Array(arr))
}

/// Read and decode `total` element fields.
fn decode_elements(decoder: &FieldDecoder<'_>, reader: &mut FieldReader<'_>, total: usize) -> (r:
    Result<Vec<PgValue>, Error>)
    requires
        old(reader).wf(),
    ensures
        match spec_elems(decoder.column@, *decoder.ty, old(reader).data.rest(), total as int) {
            Ok(vs) => r matches Ok(es) && es@.map_values(|v: PgValue| v@) == vs,
            Err(e) => r matches Err(x) && x@ == e,
        },
{
    let ghost b = reader.data.bytes();
    let ghost s0 = reader.data.rest();
    let ghost p0 = reader.data.position();
    let mut elements: Vec<PgValue> = Vec::new();
    let mut i: usize = 0;
    assert(s0.skip(0) =~= s0);
    while i < total
        invariant
            reader.wf(),
            reader.data.bytes() == b,
            p0 == old(reader).data.position(),
            s0 == old(reader).data.rest(),
            p0 >= 0,
            reader.data.position() >= p0,
            s0 == b.skip(p0),
            reader.data.rest() == s0.skip(reader.data.position() - p0),
            i <= total,
            ({
                let all = spec_elems(decoder.column@, *decoder.ty, s0, total as int);
                let rest = spec_elems(decoder.column@, *decoder.ty, reader.data.rest(), total - i);
                all == match rest {
                    Ok(vs) => Ok(elements@.map_values(|v: PgValue| v@) + vs),
                    Err(e) => Err(e),
                }
            }),
        decreases total - i,
    {
        let ghost before = reader.data.rest();
        let ghost pb = reader.data.position();
        let f = match reader.read_field() {
            Ok(f) => f,
            Err(e) => {
                return Err(e);
            },
        };
        let v = match decoder.decode_array_element(f) {
            Ok(v) => v,
            Err(e) => {
                return Err(e);
            },
        };
        proof {
            let (_, n) = spec_read_field(before);
            lemma_skip_skip(b, pb, n);
            lemma_skip_skip(b, p0, reader.data.position() - p0);
            assert forall|vs: Seq<ValueV>|
                #![auto]
                elements@.map_values(|x: PgValue| x@) + (seq![v@] + vs) == elements@.push(
                    v,
                ).map_values(|x: PgValue| x@) + vs by {
                assert(elements@.map_values(|x: PgValue| x@) + (seq![v@] + vs) =~= elements@.push(
                    v,
                ).map_values(|x: PgValue| x@) + vs);
            }
        }
        elements.push(v);
        i = i + 1;
    }
    proof {
        assert(elements@.map_values(|x: PgValue| x@) + Seq::<ValueV>::empty() =~= elements@.map_values(
            |x: PgValue| x@,
        ));
    }
    Ok(elements)
}

/// Read `ndim` dimensions and the element count they give.
fn parse_dimensions(decoder: &FieldDecoder<'_>, reader: &mut FieldReader<'_>, ndim: i32) -> (r:
    Result<(Vec<ArrayDimension>, usize), Error>)
    requires
        old(reader).wf(),
        ndim >= 1,
    ensures
        final(reader).wf(),
        final(reader).data.bytes() == old(reader).data.bytes(),
        match spec_dims(decoder.column@, *decoder.ty, old(reader).data.rest(), ndim as int, 1) {
            Ok((ds, t, n)) => r matches Ok((dims, total)) && dims@ == ds && total == t
                && final(reader).data.advanced(old(reader).data, n),
            Err(e) => r matches Err(x) && x@ == e,
        },
{
    let ghost s0 = reader.data.rest();
    let ghost p0 = reader.data.position();
    let mut dimensions: Vec<ArrayDimension> = Vec::new();
    let mut total_elements: i64 = 1;
    let mut k: i32 = 0;
    assert(s0.skip(0) =~= s0);
    while k < ndim
        invariant
            reader.wf(),
            reader.data.bytes() == old(reader).data.bytes(),
            p0 == old(reader).data.position(),
            s0 == old(reader).data.rest(),
            p0 >= 0,
            reader.data.position() >= p0,
            reader.data.rest() == s0.skip(reader.data.position() - p0),
            0 <= k <= ndim,
            0 <= total_elements,
            ({
                let all = spec_dims(decoder.column@, *decoder.ty, s0, ndim as int, 1);
                let rest = spec_dims(
                    decoder.column@,
                    *decoder.ty,
                    reader.data.rest(),
                    ndim - k,
                    total_elements as int,
                );
                all == match rest {
                    Ok((ds, t, n)) => Ok(
                        (dimensions@ + ds, t, (reader.data.position() - p0) + n),
                    ),
                    Err(e) => Err(e),
                }
            }),
        decreases ndim - k,
    {
        let ghost before = reader.data.rest();
        let ghost pb = reader.data.position();
        let ghost dims_old = dimensions@;
        let length = reader.read_i32()?;
        assert(reader.data.rest() =~= before.skip(4));
        let lower_bound = reader.read_i32()?;
        assert(reader.data.rest() =~= before.skip(8));
        if length < 0 {
            return Err(decoder.invalid_payload("negative array dimension length"));
        }
        let ghost t_old = total_elements;
        assert(t_old * length >= 0) by (nonlinear_arith)
            requires
                t_old >= 0,
                length >= 0,
        ;
        total_elements = match total_elements.checked_mul(length as i64) {
            Some(t) => t,
            None => {
                return Err(decoder.invalid_payload("array element count overflow"));
            },
        };
        assert(total_elements == t_old * length);
        dimensions.push(ArrayDimension { length, lower_bound });
        proof {
            lemma_skip_skip(old(reader).data.bytes(), p0, reader.data.position() - p0);
            lemma_skip_skip(old(reader).data.bytes(), pb, 8);
            let d = ArrayDimension { length, lower_bound };
            let rest_new = spec_dims(
                decoder.column@,
                *decoder.ty,
                before.skip(8),
                ndim - k - 1,
                t_old * length,
            );
            if rest_new is Ok {
                let (ds, t, n) = rest_new->Ok_0;
                assert(dims_old + (seq![d] + ds) =~= dimensions@ + ds);
            }
        }
        k = k + 1;
    }
    if total_elements as u64 > usize::MAX as u64 {
        return Err(decoder.invalid_payload("array element count overflow"));
    }
    assert(dimensions@ + Seq::<ArrayDimension>::empty() =~= dimensions@);
    Ok((dimensions, total_elements as usize))
}

/// Take off the optional total-length prefix.
fn strip_optional_total_len<'b>(decoder: &FieldDecoder<'_>, payload: BufferView<'b>) -> (r: Result<
    &'b [u8],
    Error,
>)
    requires
        payload.wf(),
    ensures
        payload.rest().len() < 4 ==> (r matches Err(e) && e@ == ip(
            decoder.column@,
            *decoder.ty,
            "array payload too short"@,
        )),
        payload.rest().len() >= 4 ==> (r matches Ok(b) && b@ == spec_strip_total_len(payload.rest())),
{
    decoder.ensure_min_remaining(&payload, 4, "array payload too short")?;
    let mut view = payload;
    let bytes = view.read_remaining();
    let v = read_i32_at(bytes, 0);
    assert(bytes@.subrange(0, 4) =~= bytes@.take(4));
    let total_len: usize = if v >= 0 {
        v as usize
    } else {
        usize::MAX - ((-(v as i64) - 1) as usize)
    };
    if total_len == bytes.len() - 4 {
        Ok(vstd::slice::slice_subrange(bytes, 4, bytes.len()))
    } else {
        Ok(bytes)
    }
}

/// `acc` times the dimension lengths, multiplied in order in `i64`; `None` on overflow.
pub open spec fn spec_dims_product(dims: Seq<ArrayDimension>, acc: int) -> Option<int>
    decreases dims.len(),
{
    if dims.len() == 0 {
        Some(acc)
    } else {
        let q = acc * dims[0].length;
        if q > i64::MAX || q < i64::MIN {
            None
        } else {
            spec_dims_product(dims.drop_first(), q)
        }
    }
}

/// The dimension headers on the wire: length and lower bound of each.
pub open spec fn spec_dims_bytes(dims: Seq<ArrayDimension>) -> Seq<u8>
    decreases dims.len(),
{
    if dims.len() == 0 {
        Seq::empty()
    } else {
        int_be(dims[0].length as int, 4) + int_be(dims[0].lower_bound as int, 4) + spec_dims_bytes(
            dims.drop_first(),
        )
    }
}

/// The envelope of one array element: `-1` for NULL, else length (cut to 32 bits) and payload.
pub open spec fn spec_element_bytes(f: Option<Seq<u8>>) -> Seq<u8> {
    match f {
        None => int_be(-1, 4),
        Some(p) => int_be((p.len() as i32) as int, 4) + p,
    }
}

/// The element envelopes in order, or the first element's error.
pub open spec fn spec_elems_bytes(column: Seq<char>, ty: PgType, es: Seq<ValueV>) -> Result<
    Seq<u8>,
    ErrorV,
>
    decreases es.len(),
{
    if es.len() == 0 {
        Ok(Seq::empty())
    } else {
        match spec_encode_element(column, ty, es[0]) {
            Err(e) => Err(e),
            Ok(f) => match spec_elems_bytes(column, ty, es.drop_first()) {
                Err(e) => Err(e),
                Ok(b) => Ok(spec_element_bytes(f) + b),
            },
        }
    }
}

/// Some element is NULL.
pub open spec fn spec_has_nulls(es: Seq<ValueV>) -> bool {
    exists|i: int| 0 <= i < es.len() && es[i] is Null
}

/// The payload of the array value `v` in column `column` of array type `ty`. From two
/// dimensions on, the body is preceded by its length.
pub open spec fn spec_encode_array(column: Seq<char>, ty: PgType, v: ValueV) -> Result<Seq<u8>, ErrorV> {
    match ty {
        PgType::Array(inner) => {
            let et = *inner;
            match v {
                ValueV::Array(vt, dims, es) => if vt != et {
                    Err(type_mismatch(column, ty, v))
                } else if dims.len() == 0 {
                    Err(ip(column, ty, "array must have at least one dimension"@))
                } else {
                    match spec_dims_product(dims, 1) {
                        None => Err(ip(column, ty, "array element count overflow"@)),
                        Some(count) => if es.len() != count {
                            Err(ip(column, ty, "array element count does not match dimensions"@))
                        } else {
                            match spec_oid(et) {
                                None => Err(ErrorV::UnsupportedType(ty)),
                                Some(oid) => match spec_elems_bytes(column, et, es) {
                                    Err(e) => Err(e),
                                    Ok(eb) => {
                                        let body = int_be((dims.len() as i32) as int, 4) + int_be(
                                            if spec_has_nulls(es) {
                                                1
                                            } else {
                                                0
                                            },
                                            4,
                                        ) + int_be((oid as i32) as int, 4) + spec_dims_bytes(dims)
                                            + eb;
                                        if dims.len() >= 2 {
                                            Ok(int_be((body.len() as i32) as int, 4) + body)
                                        } else {
                                            Ok(body)
                                        }
                                    },
                                },
                            }
                        },
                    }
                },
                _ => Err(type_mismatch(column, ty, v)),
            }
        },
        _ => Err(type_mismatch(column, ty, v)),
    }
}

/// An array element ready for the wire.
pub enum ArrayElementEncoding {
    Null,
    Payload(Vec<u8>),
}

impl View for ArrayElementEncoding {
    type V = Option<Seq<u8>>;

    open spec fn view(&self) -> Option<Seq<u8>> {
        match self {
            ArrayElementEncoding::Null => None,
            ArrayElementEncoding::Payload(p) => Some(p@),
        }
    }
}

fn write_i32(buf: &mut Vec<u8>, value: i32)
    ensures
        final(buf)@ == old(buf)@ + int_be(value as int, 4),
{
    push_i32(buf, value);
}

pub(crate) fn encode_array(encoder: &FieldEncoder<'_>, value: &PgValue) -> (r: Result<Vec<u8>, Error>)
    ensures
        match spec_encode_array(encoder.column@, *encoder.ty, value@) {
            Ok(p) => r matches Ok(b) && b@ == p,
            Err(e) => r matches Err(x) && x@ == e,
        },
{
    let element_ty: &PgType = match encoder.ty {
        PgType::Array(inner) => &**inner,
        _ => {
            return Err(encoder.type_mismatch(value));
        },
    };
    let array = match value {
        PgValue::Array(a) => a,
        _ => {
            return Err(encoder.type_mismatch(value));
        },
    };
    proof {
        lemma_array_view(*array);
    }
    if array.element_type != *element_ty {
        return Err(encoder.type_mismatch(value));
    }
    let ndim = array.dimensions.len();
    if ndim == 0 {
        return Err(encoder.invalid_payload("array must have at least one dimension"));
    }
    let mut expected_count: i64 = 1;
    let mut i: usize = 0;
    assert(array.dimensions@.skip(0) =~= array.dimensions@);
    while i < ndim
        invariant
            *encoder.ty is Array,
            *encoder.ty->Array_0 == *element_ty,
            array.element_type == *element_ty,
            value@ == ValueV::Array(
                array.element_type,
                array.dimensions@,
                array.elements@.map_values(|v: PgValue| v@),
            ),
            ndim > 0,
            ndim == array.dimensions@.len(),
            i <= ndim,
            spec_dims_product(array.dimensions@, 1) == spec_dims_product(
                array.dimensions@.skip(i as int),
                expected_count as int,
            ),
        decreases ndim - i,
    {
        assert(array.dimensions@.skip(i as int).drop_first() =~= array.dimensions@.skip(i + 1));
        expected_count = match expected_count.checked_mul(array.dimensions[i].length as i64) {
            Some(c) => c,
            None => {
                return Err(encoder.invalid_payload("array element count overflow"));
            },
        };
        i = i + 1;
    }
    assert(array.dimensions@.skip(ndim as int) =~= Seq::<ArrayDimension>::empty());
    if array.elements.len() as i128 != expected_count as i128 {
        return Err(encoder.invalid_payload("array element count does not match dimensions"));
    }
    let element_oid = match element_ty.oid() {
        Some(o) => o,
        None => {
            return Err(Error::UnsupportedType(encoder.ty.clone()));
        },
    };
    let element_encoder = FieldEncoder::new(encoder.column, element_ty, true);
    let has_nulls = any_null(&array.elements);
    let mut body: Vec<u8> = Vec::new();
    write_i32(&mut body, ndim as i32);
    write_i32(&mut body, if has_nulls { 1 } else { 0 });
    write_i32(&mut body, element_oid as i32);
    let ghost head = body@;
    let mut i: usize = 0;
    proof {
        assert(array.dimensions@.skip(0) =~= array.dimensions@);
        assert(body@.take(head.len() as int) =~= head);
        assert(body@.skip(head.len() as int) =~= Seq::<u8>::empty());
    }
    while i < ndim
        invariant
            ndim == array.dimensions@.len(),
            i <= ndim,
            body@.len() >= head.len(),
            body@.take(head.len() as int) == head,
            spec_dims_bytes(array.dimensions@) == body@.skip(head.len() as int) + spec_dims_bytes(
                array.dimensions@.skip(i as int),
            ),
        decreases ndim - i,
    {
        let ghost before = body@;
        assert(array.dimensions@.skip(i as int).drop_first() =~= array.dimensions@.skip(i + 1));
        write_i32(&mut body, array.dimensions[i].length);
        write_i32(&mut body, array.dimensions[i].lower_bound);
        proof {
            assert(body@.take(head.len() as int) =~= head);
            let d = array.dimensions@[i as int];
            assert(body@.skip(head.len() as int) =~= before.skip(head.len() as int) + int_be(
                d.length as int,
                4,
            ) + int_be(d.lower_bound as int, 4));
            assert(before.skip(head.len() as int) + (int_be(d.length as int, 4) + int_be(
                d.lower_bound as int,
                4,
            ) + spec_dims_bytes(array.dimensions@.skip(i + 1))) =~= body@.skip(head.len() as int)
                + spec_dims_bytes(array.dimensions@.skip(i + 1)));
        }
        i = i + 1;
    }
    proof {
        assert(array.dimensions@.skip(ndim as int) =~= Seq::<ArrayDimension>::empty());
        assert(body@ =~= head + body@.skip(head.len() as int));
        assert(body@.skip(head.len() as int) + Seq::<u8>::empty() =~= body@.skip(head.len() as int));
    }
    let ghost head2 = body@;
    let ghost es = array.elements@.map_values(|v: PgValue| v@);
    let mut j: usize = 0;
    proof {
        assert(es.skip(0) =~= es);
        assert(body@.take(head2.len() as int) =~= head2);
        assert(body@.skip(head2.len() as int) =~= Seq::<u8>::empty());
    }
    while j < array.elements.len()
        invariant
            *encoder.ty is Array,
            *encoder.ty->Array_0 == *element_ty,
            array.element_type == *element_ty,
            value@ == ValueV::Array(
                array.element_type,
                array.dimensions@,
                array.elements@.map_values(|v: PgValue| v@),
            ),
            ndim > 0,
            ndim == array.dimensions@.len(),
            spec_dims_product(array.dimensions@, 1) == Some(array.elements@.len() as int),
            spec_oid(*element_ty) == Some(element_oid),
            j <= array.elements@.len(),
            body@.len() >= head2.len(),
            body@.take(head2.len() as int) == head2,
            spec_elems_bytes(encoder.column@, *element_ty, es) == match spec_elems_bytes(
                encoder.column@,
                *element_ty,
                es.skip(j as int),
            ) {
                Ok(b) => Ok(body@.skip(head2.len() as int) + b),
                Err(e) => Err(e),
            },
            es == array.elements@.map_values(|v: PgValue| v@),
            element_encoder.column == encoder.column,
            element_encoder.ty == element_ty,
            element_encoder.nullable,
        decreases array.elements@.len() - j,
    {
        let ghost before = body@;
        assert(es.skip(j as int).drop_first() =~= es.skip(j + 1));
        assert(es.skip(j as int)[0] == array.elements@[j as int]@);
        let enc = match element_encoder.encode_array_element(&array.elements[j]) {
            Ok(x) => x,
            Err(e) => {
                return Err(e);
            },
        };
        match enc {
            ArrayElementEncoding::Null => write_i32(&mut body, -1),
            ArrayElementEncoding::Payload(payload) => {
                write_i32(&mut body, payload.len() as i32);
                push_all(&mut body, payload.as_slice());
            },
        }
        proof {
            let eb = spec_element_bytes(enc@);
            assert(body@ =~= before + eb);
            assert(body@.take(head2.len() as int) =~= head2);
            assert(body@.skip(head2.len() as int) =~= before.skip(head2.len() as int) + eb);
            assert forall|b: Seq<u8>|
                #![auto]
                before.skip(head2.len() as int) + (eb + b) == body@.skip(head2.len() as int) + b by {
                assert(before.skip(head2.len() as int) + (eb + b) =~= body@.skip(head2.len() as int)
                    + b);
            }
        }
        j = j + 1;
    }
    proof {
        assert(es.skip(j as int) =~= Seq::<ValueV>::empty());
        assert(body@ =~= head2 + body@.skip(head2.len() as int));
        assert(body@.skip(head2.len() as int) + Seq::<u8>::empty() =~= body@.skip(head2.len() as int));
    }
    if ndim >= 2 {
        let mut buf: Vec<u8> = Vec::new();
        write_i32(&mut buf, body.len() as i32);
        push_all(&mut buf, body.as_slice());
        assert(buf@ =~= spec_encode_array(encoder.column@, *encoder.ty, value@)->Ok_0);
        Ok(buf)
    } else {
        assert(body@ =~= spec_encode_array(encoder.column@, *encoder.ty, value@)->Ok_0);
        Ok(body)
    }
}

/// Some element is NULL.
fn any_null(elements: &Vec<PgValue>) -> (r: bool)
    ensures
        r == spec_has_nulls(elements@.map_values(|v: PgValue| v@)),
{
    let ghost es = elements@.map_values(|v: PgValue| v@);
    let mut i: usize = 0;
    while i < elements.len()
        invariant
            i <= elements@.len(),
            es == elements@.map_values(|v: PgValue| v@),
            forall|k: int| 0 <= k < i ==> !(es[k] is Null),
        decreases elements@.len() - i,
    {
        if elements[i].is_null() {
            assert(es[i as int] is Null);
            return true;
        }
        i = i + 1;
    }
    false
}

} // verus!
