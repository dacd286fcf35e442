//! COPY binary file header.
use crate::binary::be::{be_int, push_i32};
use crate::binary::buffer_view::{eof, BufferView};
use crate::binary::constants::{spec_magic, COPY_MAGIC};
use crate::error::{Error, ErrorV};
use vstd::prelude::*;

verus! {

/// The header of a COPY binary blob, after the magic bytes.
#[derive(Debug, Clone, PartialEq, Eq)]
pub struct PgBinaryHeader {
    pub flags: i32,
    pub extension: Vec<u8>,
}

/// Reading the header from the front of `s`: the flags, the extension area and the
/// number of bytes the header takes.
///
/// A blob whose first bytes differ from the magic is refused as such even when it is
/// shorter than the magic; one that is a strict prefix of the magic is cut short.
pub open spec fn spec_header(s: Seq<u8>) -> Result<(i32, Seq<u8>, int), ErrorV> {
    let m: int = if s.len() < 11 { s.len() as int } else { 11 };
    if s.take(m) != spec_magic().take(m) {
        Err(ErrorV::InvalidMagic)
    } else if s.len() < 11 {
        Err(eof(11, s))
    } else {
        let s1 = s.skip(11);
        if s1.len() < 4 {
            Err(eof(4, s1))
        } else {
            let s2 = s1.skip(4);
            if s2.len() < 4 {
                Err(eof(4, s2))
            } else {
                let ext_len = be_int(s2.take(4));
                let s3 = s2.skip(4);
                if ext_len < 0 {
                    Err(ErrorV::InvalidHeader { reason: "negative extension length"@ })
                } else if ext_len > s3.len() {
                    Err(eof(ext_len, s3))
                } else {
                    Ok((be_int(s1.take(4)) as i32, s3.take(ext_len), 19 + ext_len))
                }
            }
        }
    }
}

/// The header that the writer emits: magic, flags zero, no extension.
pub open spec fn spec_header_bytes() -> Seq<u8> {
    spec_magic() + seq![0u8, 0u8, 0u8, 0u8, 0u8, 0u8, 0u8, 0u8]
}

impl PgBinaryHeader {
    pub fn parse(data: &mut BufferView<'_>) -> (r: Result<Self, Error>)
        requires
            old(data).wf(),
        ensures
            final(data).wf(),
            final(data).bytes() == old(data).bytes(),
            match spec_header(old(data).rest()) {
                Ok((flags, ext, n)) => r matches Ok(h) && h.flags == flags && h.extension@ == ext
                    && final(data).advanced(*old(data), n),
                Err(e) => r matches Err(x) && x@ == e,
            },
    {
        let ghost s = data.rest();
        let avail = data.remaining();
        let m = if avail < 11 {
            avail
        } else {
            11
        };
        let mut i: usize = 0;
        while i < m
            invariant
                data.wf(),
                s == data.rest(),
                m <= 11,
                m <= s.len(),
                m == (if s.len() < 11 { s.len() as int } else { 11 }),
                i <= m,
                s.take(i as int) == spec_magic().take(i as int),
            decreases m - i,
        {
            let b = data.peek_bytes(i + 1)?;
            proof {
                assert(COPY_MAGIC@ =~= spec_magic());
            }
            if b[i] != COPY_MAGIC[i] {
                proof {
                    assert(s.take(m as int)[i as int] != spec_magic().take(m as int)[i as int]);
                }
                return Err(Error::InvalidMagic);
            }
            proof {
                assert(s.take(i + 1) =~= spec_magic().take(i + 1));
            }
            i = i + 1;
        }
        if avail < 11 {
            return Err(Error::UnexpectedEof { expected: 11, available: avail });
        }
        let _magic = data.read_n_and_project_view(11)?;
        let ghost s1 = data.rest();
        assert(s1 =~= s.skip(11));
        let flags = data.read_i32()?;
        let ghost s2 = data.rest();
        assert(s2 =~= s1.skip(4));
        let ext_len = data.read_i32()?;
        let ghost s3 = data.rest();
        assert(s3 =~= s2.skip(4));
        if ext_len < 0 {
            return Err(Error::InvalidHeader { reason: "negative extension length" });
        }
        let mut ext = data.read_n_and_project_view(ext_len as usize)?;
        let extension = vstd::slice::slice_to_vec(ext.read_remaining());
        Ok(PgBinaryHeader { flags, extension })
    }

    pub fn write_to(buf: &mut Vec<u8>)
        ensures
            final(buf)@ == old(buf)@ + spec_header_bytes(),
    {
        let mut i: usize = 0;
        while i < 11
            invariant
                i <= 11,
                buf@ == old(buf)@ + spec_magic().take(i as int),
            decreases 11 - i,
        {
            proof {
                assert(COPY_MAGIC@ =~= spec_magic());
            }
            buf.push(COPY_MAGIC[i]);
            assert(spec_magic().take(i + 1) =~= spec_magic().take(i as int).push(spec_magic()[i as int]));
            i = i + 1;
        }
        push_i32(buf, 0);
        push_i32(buf, 0);
        proof {
            crate::binary::be::lemma_pow256_values();
            reveal_with_fuel(crate::binary::be::nat_be, 5);
            assert(spec_magic().take(11) =~= spec_magic());
            assert(final(buf)@ =~= old(buf)@ + spec_header_bytes());
        }
    }
}

} // verus!
