//! Big-endian integers: the byte model and the executable reads and writes.
//!
//! A big-endian field of `len` bytes holds the natural number [`be_nat`]; a signed
//! field holds its two's complement [`be_int`]. Encoding goes the other way with
//! [`nat_be`] and [`int_be`].
use vstd::prelude::*;

verus! {

/// `256` to the power `n`.
pub open spec fn pow256(n: nat) -> nat
    decreases n,
{
    if n == 0 {
        1
    } else {
        256 * pow256((n - 1) as nat)
    }
}

/// The natural number that the bytes `s` denote, most significant byte first.
pub open spec fn be_nat(s: Seq<u8>) -> nat
    decreases s.len(),
{
    if s.len() == 0 {
        0
    } else {
        be_nat(s.drop_last()) * 256 + s.last() as nat
    }
}

/// The `len` lowest big-endian bytes of `n`.
pub open spec fn nat_be(n: nat, len: nat) -> Seq<u8>
    decreases len,
{
    if len == 0 {
        Seq::empty()
    } else {
        nat_be(n / 256, (len - 1) as nat).push((n % 256) as u8)
    }
}

/// The two's complement integer that the bytes `s` denote.
pub open spec fn be_int(s: Seq<u8>) -> int {
    let u = be_nat(s);
    if s.len() > 0 && u >= pow256(s.len()) / 2 {
        u - pow256(s.len())
    } else {
        u as int
    }
}

/// The `len`-byte two's complement big-endian encoding of `v`.
pub open spec fn int_be(v: int, len: nat) -> Seq<u8> {
    nat_be((if v < 0 { v + pow256(len) } else { v }) as nat, len)
}

pub proof fn lemma_pow256_values()
    ensures
        pow256(0) == 1,
        pow256(1) == 256,
        pow256(2) == 0x1_0000,
        pow256(4) == 0x1_0000_0000,
        pow256(8) == 0x1_0000_0000_0000_0000,
{
    reveal_with_fuel(pow256, 9);
}

pub proof fn lemma_pow256_mono(a: nat, b: nat)
    requires
        a <= b,
    ensures
        1 <= pow256(a) <= pow256(b),
    decreases b,
{
    if b > a {
        lemma_pow256_mono(a, (b - 1) as nat);
    } else if a > 0 {
        lemma_pow256_mono((a - 1) as nat, (a - 1) as nat);
    }
}

pub proof fn lemma_nat_be_len(n: nat, len: nat)
    ensures
        nat_be(n, len).len() == len,
    decreases len,
{
    if len > 0 {
        lemma_nat_be_len(n / 256, (len - 1) as nat);
    }
}

pub proof fn lemma_be_nat_bound(s: Seq<u8>)
    ensures
        be_nat(s) < pow256(s.len()),
    decreases s.len(),
{
    if s.len() > 0 {
        lemma_be_nat_bound(s.drop_last());
    }
}

/// Decoding the encoding of a number that fits gives the number back.
pub proof fn lemma_be_nat_nat_be(n: nat, len: nat)
    requires
        n < pow256(len),
    ensures
        be_nat(nat_be(n, len)) == n,
        nat_be(n, len).len() == len,
    decreases len,
{
    lemma_nat_be_len(n, len);
    if len > 0 {
        let p = pow256((len - 1) as nat);
        assert(n / 256 < p) by (nonlinear_arith)
            requires
                n < 256 * p,
        ;
        lemma_be_nat_nat_be(n / 256, (len - 1) as nat);
        let s = nat_be(n, len);
        assert(s.drop_last() =~= nat_be(n / 256, (len - 1) as nat));
    }
}

/// Encoding the number that bytes denote gives the bytes back.
pub proof fn lemma_nat_be_be_nat(s: Seq<u8>)
    ensures
        nat_be(be_nat(s), s.len()) == s,
    decreases s.len(),
{
    if s.len() > 0 {
        let b = be_nat(s.drop_last());
        let n = be_nat(s);
        assert(n / 256 == b && n % 256 == s.last()) by (nonlinear_arith)
            requires
                n == b * 256 + s.last(),
                s.last() < 256,
        ;
        lemma_nat_be_be_nat(s.drop_last());
        assert(nat_be(n, s.len()) =~= s);
    }
}

/// Two's complement: encoding then decoding a value in range gives it back.
pub proof fn lemma_be_int_int_be(v: int, len: nat)
    requires
        len > 0,
        -(pow256(len) / 2) <= v < pow256(len) / 2,
    ensures
        be_int(int_be(v, len)) == v,
        int_be(v, len).len() == len,
{
    let p = pow256(len);
    assert(p == 256 * pow256((len - 1) as nat));
    let u = (if v < 0 { v + p } else { v }) as nat;
    lemma_be_nat_nat_be(u, len);
}

/// Two's complement: decoding then encoding gives the bytes back, and the value is in range.
pub proof fn lemma_int_be_be_int(s: Seq<u8>)
    requires
        s.len() > 0,
    ensures
        int_be(be_int(s), s.len()) == s,
        -(pow256(s.len()) / 2) <= be_int(s) < pow256(s.len()) / 2,
{
    lemma_be_nat_bound(s);
    lemma_nat_be_be_nat(s);
}

/// The natural number in `len` bytes of `data` starting at `pos`.
pub fn read_uint(data: &[u8], pos: usize, len: usize) -> (r: u64)
    requires
        len <= 8,
        pos + len <= data@.len(),
    ensures
        r == be_nat(data@.subrange(pos as int, pos + len)),
{
    let n = data.len();
    let mut acc: u64 = 0;
    let mut i: usize = 0;
    while i < len
        invariant
            n == data@.len(),
            i <= len,
            len <= 8,
            pos + len <= data@.len(),
            acc == be_nat(data@.subrange(pos as int, pos + i)),
        decreases len - i,
    {
        proof {
            let s = data@.subrange(pos as int, pos + i + 1);
            assert(s.drop_last() =~= data@.subrange(pos as int, pos + i));
            lemma_be_nat_bound(data@.subrange(pos as int, pos + i));
            lemma_pow256_mono(i as nat, 7);
            assert(pow256(7) == 0x100_0000_0000_0000) by {
                reveal_with_fuel(pow256, 8);
            }
        }
        acc = acc * 256 + data[pos + i] as u64;
        i = i + 1;
    }
    acc
}

/// Append the `len` lowest big-endian bytes of `n`.
pub fn push_uint(buf: &mut Vec<u8>, n: u64, len: usize)
    requires
        len <= 8,
    ensures
        final(buf)@ == old(buf)@ + nat_be(n as nat, len as nat),
    decreases len,
{
    if len == 0 {
        assert(old(buf)@ + nat_be(n as nat, 0) =~= old(buf)@);
    } else {
        push_uint(buf, n / 256, len - 1);
        buf.push((n % 256) as u8);
        assert(final(buf)@ =~= old(buf)@ + nat_be(n as nat, len as nat));
    }
}


/// Append the two's complement big-endian encoding of `v` in `len` bytes.
fn push_int(buf: &mut Vec<u8>, v: i64, len: usize)
    requires
        1 <= len <= 8,
        len < 8 ==> -(pow256(len as nat) / 2) <= v < pow256(len as nat) / 2,
    ensures
        final(buf)@ == old(buf)@ + int_be(v as int, len as nat),
{
    proof {
        lemma_pow256_values();
        lemma_pow256_mono(len as nat, 8);
    }
    let u: u64 = if v < 0 {
        if len == 8 {
            (v as i128 + 0x1_0000_0000_0000_0000i128) as u64
        } else {
            assert(pow256(len as nat) <= 0x100_0000_0000_0000) by {
                lemma_pow256_mono(len as nat, 7);
                reveal_with_fuel(pow256, 8);
            }
            let p = pow256_exec(len);
            (v + p as i64) as u64
        }
    } else {
        v as u64
    };
    push_uint(buf, u, len);
}

/// `256` to the power `n`, for `n < 8`.
fn pow256_exec(n: usize) -> (r: u64)
    requires
        n < 8,
    ensures
        r == pow256(n as nat),
    decreases n,
{
    if n == 0 {
        1
    } else {
        proof {
            lemma_pow256_mono((n - 1) as nat, 6);
            assert(pow256(6) == 0x1_0000_0000_0000) by {
                reveal_with_fuel(pow256, 7);
            }
        }
        256 * pow256_exec(n - 1)
    }
}

/// Append `v` as two big-endian bytes.
pub fn push_i16(buf: &mut Vec<u8>, v: i16)
    ensures
        final(buf)@ == old(buf)@ + int_be(v as int, 2),
{
    proof {
        lemma_pow256_values();
    }
    push_int(buf, v as i64, 2);
}

/// Append `v` as four big-endian bytes.
pub fn push_i32(buf: &mut Vec<u8>, v: i32)
    ensures
        final(buf)@ == old(buf)@ + int_be(v as int, 4),
{
    proof {
        lemma_pow256_values();
    }
    push_int(buf, v as i64, 4);
}

/// Append `v` as eight big-endian bytes.
pub fn push_i64(buf: &mut Vec<u8>, v: i64)
    ensures
        final(buf)@ == old(buf)@ + int_be(v as int, 8),
{
    push_int(buf, v, 8);
}

/// Append `v` as four big-endian bytes.
pub fn push_u32(buf: &mut Vec<u8>, v: u32)
    ensures
        final(buf)@ == old(buf)@ + nat_be(v as nat, 4),
{
    push_uint(buf, v as u64, 4);
}

/// Append `v` as eight big-endian bytes.
pub fn push_u64(buf: &mut Vec<u8>, v: u64)
    ensures
        final(buf)@ == old(buf)@ + nat_be(v as nat, 8),
{
    push_uint(buf, v, 8);
}

/// The signed value of two big-endian bytes at `pos`.
pub fn read_i16_at(data: &[u8], pos: usize) -> (r: i16)
    requires
        pos + 2 <= data@.len(),
    ensures
        r as int == be_int(data@.subrange(pos as int, pos + 2)),
{
    let u = read_uint(data, pos, 2);
    proof {
        lemma_pow256_values();
        lemma_be_nat_bound(data@.subrange(pos as int, pos + 2));
    }
    if u >= 0x8000 {
        (u as i32 - 0x1_0000) as i16
    } else {
        u as i16
    }
}

/// The signed value of four big-endian bytes at `pos`.
pub fn read_i32_at(data: &[u8], pos: usize) -> (r: i32)
    requires
        pos + 4 <= data@.len(),
    ensures
        r as int == be_int(data@.subrange(pos as int, pos + 4)),
{
    let u = read_uint(data, pos, 4);
    proof {
        lemma_pow256_values();
        lemma_be_nat_bound(data@.subrange(pos as int, pos + 4));
    }
    if u >= 0x8000_0000 {
        (u as i64 - 0x1_0000_0000) as i32
    } else {
        u as i32
    }
}

/// The signed value of eight big-endian bytes at `pos`.
pub fn read_i64_at(data: &[u8], pos: usize) -> (r: i64)
    requires
        pos + 8 <= data@.len(),
    ensures
        r as int == be_int(data@.subrange(pos as int, pos + 8)),
{
    let u = read_uint(data, pos, 8);
    proof {
        lemma_pow256_values();
        lemma_be_nat_bound(data@.subrange(pos as int, pos + 8));
    }
    if u >= 0x8000_0000_0000_0000 {
        (u as i128 - 0x1_0000_0000_0000_0000i128) as i64
    } else {
        u as i64
    }
}

/// The unsigned value of four big-endian bytes at `pos`.
pub fn read_u32_at(data: &[u8], pos: usize) -> (r: u32)
    requires
        pos + 4 <= data@.len(),
    ensures
        r as nat == be_nat(data@.subrange(pos as int, pos + 4)),
{
    let u = read_uint(data, pos, 4);
    proof {
        lemma_pow256_values();
        lemma_be_nat_bound(data@.subrange(pos as int, pos + 4));
    }
    u as u32
}

/// The unsigned value of eight big-endian bytes at `pos`.
pub fn read_u64_at(data: &[u8], pos: usize) -> (r: u64)
    requires
        pos + 8 <= data@.len(),
    ensures
        r as nat == be_nat(data@.subrange(pos as int, pos + 8)),
{
    read_uint(data, pos, 8)
}

} // verus!
