//! PostgreSQL `numeric`: the IR type and its wire payload.
use crate::binary::be::{be_int, int_be, push_i16};
use crate::binary::buffer_view::{eof, BufferView};
use crate::error::{ip, Error, ErrorV};
use crate::schema::PgType;
use crate::value::NumericV;
use vstd::prelude::*;

verus! {

/// Sign component of a PostgreSQL `numeric` value.
#[derive(Debug, Clone, Copy, PartialEq, Eq, Hash)]
pub enum NumericSign {
    Positive,
    Negative,
    NaN,
}

/// Arbitrary-precision decimal in PostgreSQL binary numeric layout.
#[derive(Debug, Clone, PartialEq, Eq, Hash)]
pub struct PgNumeric {
    pub ndigits: i16,
    pub weight: i16,
    pub sign: NumericSign,
    pub dscale: i16,
    /// Base-10000 magnitude limbs, most significant first.
    pub digits: Vec<i16>,
}

impl PgNumeric {
    pub fn new(ndigits: i16, weight: i16, sign: NumericSign, dscale: i16, digits: Vec<i16>) -> (r:
        Self)
        ensures
            r.ndigits == ndigits,
            r.weight == weight,
            r.sign == sign,
            r.dscale == dscale,
            r.digits@ == digits@,
    {
        Self { ndigits, weight, sign, dscale, digits }
    }

    /// Numeric zero: no digits, weight and scale zero, positive.
    pub fn zero() -> (r: Self)
        ensures
            r@ == spec_numeric_zero(),
    {
        let r = Self {
            ndigits: 0,
            weight: 0,
            sign: NumericSign::Positive,
            dscale: 0,
            digits: Vec::new(),
        };
        assert(r.digits@ =~= Seq::<i16>::empty());
        r
    }
}

/// Numeric zero.
pub open spec fn spec_numeric_zero() -> NumericV {
    NumericV {
        ndigits: 0,
        weight: 0,
        sign: NumericSign::Positive,
        dscale: 0,
        digits: Seq::empty(),
    }
}

/// The sign that the wire code `raw` stands for.
pub open spec fn spec_sign(raw: int) -> Option<NumericSign> {
    if raw == 0 {
        Some(NumericSign::Positive)
    } else if raw == 0x4000 {
        Some(NumericSign::Negative)
    } else if raw == -0x4000 {
        Some(NumericSign::NaN)
    } else {
        None
    }
}

/// The wire code of a sign (`0x0000`, `0x4000`, `0xC000`).
pub open spec fn spec_sign_code(sign: NumericSign) -> i16 {
    match sign {
        NumericSign::Positive => 0i16,
        NumericSign::Negative => 0x4000i16,
        NumericSign::NaN => -0x4000i16,
    }
}

/// The `count` digits that follow the eight header bytes of `p`.
pub open spec fn spec_digits(p: Seq<u8>, count: int) -> Seq<i16> {
    Seq::new(count as nat, |i: int| be_int(p.subrange(8 + 2 * i, 10 + 2 * i)) as i16)
}

/// Decoding a `numeric` payload.
///
/// A payload shorter than the eight header bytes that holds only zero bytes is numeric zero.
pub open spec fn spec_decode_numeric(column: Seq<char>, ty: PgType, p: Seq<u8>) -> Result<
    NumericV,
    ErrorV,
> {
    if p.len() == 0 {
        Err(ip(column, ty, "numeric payload too short"@))
    } else if p.len() < 8 {
        if forall|i: int| 0 <= i < p.len() ==> p[i] == 0 {
            Ok(spec_numeric_zero())
        } else {
            Err(ip(column, ty, "numeric payload too short"@))
        }
    } else {
        match spec_sign(be_int(p.subrange(4, 6))) {
            None => Err(ip(column, ty, "invalid numeric sign"@)),
            Some(sign) => {
                let nd = be_int(p.take(2));
                let count = if nd < 0 {
                    0
                } else {
                    nd
                };
                if 8 + 2 * count > p.len() {
                    Err(eof(2, p.skip(8 + 2 * ((p.len() - 8) / 2))))
                } else if 8 + 2 * count < p.len() {
                    Err(ip(column, ty, "numeric payload length mismatch"@))
                } else {
                    Ok(
                        NumericV {
                            ndigits: nd as i16,
                            weight: be_int(p.subrange(2, 4)) as i16,
                            sign,
                            dscale: be_int(p.subrange(6, 8)) as i16,
                            digits: spec_digits(p, count),
                        },
                    )
                }
            },
        }
    }
}

/// The digit limbs on the wire, two bytes each.
pub open spec fn spec_digits_bytes(ds: Seq<i16>) -> Seq<u8>
    decreases ds.len(),
{
    if ds.len() == 0 {
        Seq::empty()
    } else {
        spec_digits_bytes(ds.drop_last()) + int_be(ds.last() as int, 2)
    }
}

/// The wire payload of a `numeric`: header, then every digit limb.
pub open spec fn spec_encode_numeric(v: NumericV) -> Seq<u8> {
    int_be(v.ndigits as int, 2) + int_be(v.weight as int, 2) + int_be(
        spec_sign_code(v.sign) as int,
        2,
    ) + int_be(v.dscale as int, 2) + spec_digits_bytes(v.digits)
}

/// The content of a decoded numeric.
pub open spec fn numeric_result(r: Result<PgNumeric, Error>) -> Result<NumericV, ErrorV> {
    match r {
        Ok(n) => Ok(n@),
        Err(e) => Err(e@),
    }
}

pub fn invalid_payload(column: &str, ty: &PgType, reason: &'static str) -> (e: Error)
    ensures
        e@ == ip(column@, *ty, reason@),
{
    Error::InvalidPayload { column: String::from_str(column), ty: ty.clone(), reason }
}

fn decode_sign(raw: i16, column: &str, ty: &PgType) -> (r: Result<NumericSign, Error>)
    ensures
        match spec_sign(raw as int) {
            Some(s) => r == Ok::<NumericSign, Error>(s),
            None => r matches Err(e) && e@ == ip(column@, *ty, "invalid numeric sign"@),
        },
{
    if raw == 0 {
        Ok(NumericSign::Positive)
    } else if raw == 0x4000 {
        Ok(NumericSign::Negative)
    } else if raw == -0x4000 {
        Ok(NumericSign::NaN)
    } else {
        Err(invalid_payload(column, ty, "invalid numeric sign"))
    }
}

fn encode_sign(sign: NumericSign) -> (r: i16)
    ensures
        r == spec_sign_code(sign),
{
    match sign {
        NumericSign::Positive => 0,
        NumericSign::Negative => 0x4000,
        NumericSign::NaN => -0x4000,
    }
}

pub fn decode_numeric(payload: &[u8], column: &str, ty: &PgType) -> (r: Result<PgNumeric, Error>)
    requires
        payload@.len() <= isize::MAX,
    ensures
        numeric_result(r) == spec_decode_numeric(column@, *ty, payload@),
{
    let p = payload;
    if p.len() == 0 {
        return Err(invalid_payload(column, ty, "numeric payload too short"));
    }
    if p.len() < 8 {
        let mut i: usize = 0;
        while i < p.len()
            invariant
                p == payload,
                0 < p@.len() < 8,
                i <= p@.len(),
                forall|j: int| 0 <= j < i ==> p@[j] == 0,
            decreases p@.len() - i,
        {
            if p[i] != 0 {
                assert(p@[i as int] != 0);
                return Err(invalid_payload(column, ty, "numeric payload too short"));
            }
            i = i + 1;
        }
        return Ok(PgNumeric::zero());
    }
    let mut reader = BufferView::new(p);
    let ndigits = reader.read_i16()?;
    assert(reader.rest() =~= p@.skip(2));
    let weight = reader.read_i16()?;
    assert(reader.rest() =~= p@.skip(4));
    assert(p@.skip(2).take(2) =~= p@.subrange(2, 4));
    let raw_sign = reader.read_i16()?;
    assert(reader.rest() =~= p@.skip(6));
    assert(p@.skip(4).take(2) =~= p@.subrange(4, 6));
    let sign = decode_sign(raw_sign, column, ty)?;
    let dscale = reader.read_i16()?;
    assert(reader.rest() =~= p@.skip(8));
    assert(p@.skip(6).take(2) =~= p@.subrange(6, 8));
    let digit_count: usize = if ndigits < 0 {
        0
    } else {
        ndigits as usize
    };
    let mut digits: Vec<i16> = Vec::new();
    let mut i: usize = 0;
    while i < digit_count
        invariant
            p == payload,
            reader.wf(),
            reader.bytes() == p@,
            p@.len() >= 8,
            i <= digit_count,
            reader.position() == 8 + 2 * i,
            ndigits as int == be_int(p@.take(2)),
            digit_count as int == (if ndigits < 0 { 0 } else { ndigits as int }),
            spec_sign(be_int(p@.subrange(4, 6))) == Some(sign),
            digits@ == spec_digits(p@, i as int),
        decreases digit_count - i,
    {
        let ghost before = reader.rest();
        let d = match reader.read_i16() {
            Ok(d) => d,
            Err(e) => {
                assert(p@.len() - 8 - 2 * i < 2);
                assert((p@.len() - 8) / 2 == i);
                assert(before =~= p@.skip(8 + 2 * ((p@.len() - 8) / 2)));
                return Err(e);
            },
        };
        assert(before.take(2) =~= p@.subrange(8 + 2 * i, 10 + 2 * i));
        digits.push(d);
        assert(digits@ =~= spec_digits(p@, i + 1));
        i = i + 1;
    }
    if reader.remaining() != 0 {
        return Err(invalid_payload(column, ty, "numeric payload length mismatch"));
    }
    Ok(PgNumeric::new(ndigits, weight, sign, dscale, digits))
}

pub fn encode_numeric(value: &PgNumeric) -> (r: Vec<u8>)
    ensures
        r@ == spec_encode_numeric(value@),
{
    let mut buf: Vec<u8> = Vec::new();
    push_i16(&mut buf, value.ndigits);
    push_i16(&mut buf, value.weight);
    push_i16(&mut buf, encode_sign(value.sign));
    push_i16(&mut buf, value.dscale);
    let ghost head = buf@;
    let mut i: usize = 0;
    while i < value.digits.len()
        invariant
            i <= value.digits@.len(),
            buf@ == head + spec_digits_bytes(value.digits@.take(i as int)),
        decreases value.digits@.len() - i,
    {
        push_i16(&mut buf, value.digits[i]);
        assert(value.digits@.take(i + 1).drop_last() =~= value.digits@.take(i as int));
        i = i + 1;
    }
    assert(value.digits@.take(i as int) =~= value.digits@);
    assert(buf@ =~= spec_encode_numeric(value@));
    buf
}

} // verus!
