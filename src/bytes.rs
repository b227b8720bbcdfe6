//! Byte-level helpers: big-endian lengths, copying, and UTF-8 validation.
use vstd::prelude::*;
use vstd::utf8::*;
use crate::format::{be32, read_be32};

verus! {

/// Reading back the bytes that `be32` writes gives the number again.
pub proof fn lemma_read_be32(n: u32)
    ensures
        read_be32(be32(n)) == n,
{
    let b = be32(n);
    assert(b[0] == (n / 0x100_0000) as u8);
    assert(b[1] == (n / 0x1_0000 % 0x100) as u8);
    assert(b[2] == (n / 0x100 % 0x100) as u8);
    assert(b[3] == (n % 0x100) as u8);
    assert((n / 0x100_0000) as int * 0x100_0000 + (n / 0x1_0000 % 0x100) as int * 0x1_0000
        + (n / 0x100 % 0x100) as int * 0x100 + (n % 0x100) as int == n as int) by (nonlinear_arith);
}

/// Appends the big-endian bytes of `n`.
pub fn push_be32(out: &mut Vec<u8>, n: u32)
    ensures
        final(out)@ == old(out)@ + be32(n),
{
    out.push((n / 0x100_0000) as u8);
    out.push((n / 0x1_0000 % 0x100) as u8);
    out.push((n / 0x100 % 0x100) as u8);
    out.push((n % 0x100) as u8);
    assert(final(out)@ =~= old(out)@ + be32(n));
}

/// The big-endian number in `data[pos..pos + 4]`.
pub fn get_be32(data: &[u8], pos: usize) -> (r: u32)
    requires
        pos + 4 <= data@.len(),
    ensures
        r == read_be32(data@.subrange(pos as int, pos + 4)),
{
    let r = (data[pos] as u32) * 0x100_0000 + (data[pos + 1] as u32) * 0x1_0000
        + (data[pos + 2] as u32) * 0x100 + (data[pos + 3] as u32);
    r
}

/// Appends `src` to `out`.
pub fn append_bytes(out: &mut Vec<u8>, src: &[u8])
    ensures
        final(out)@ == old(out)@ + src@,
{
    let mut i: usize = 0;
    while i < src.len()
        invariant
            i <= src@.len(),
            out@ == old(out)@ + src@.subrange(0, i as int),
        decreases src@.len() - i,
    {
        out.push(src[i]);
        i += 1;
        assert(out@ =~= old(out)@ + src@.subrange(0, i as int));
    }
    assert(src@.subrange(0, i as int) =~= src@);
}

/// A copy of `data[start..end]`.
pub fn copy_range(data: &[u8], start: usize, end: usize) -> (r: Vec<u8>)
    requires
        start <= end <= data@.len(),
    ensures
        r@ == data@.subrange(start as int, end as int),
{
    let mut r: Vec<u8> = Vec::new();
    let mut i: usize = start;
    while i < end
        invariant
            start <= i <= end <= data@.len(),
            r@ == data@.subrange(start as int, i as int),
        decreases end - i,
    {
        r.push(data[i]);
        i += 1;
        assert(r@ =~= data@.subrange(start as int, i as int));
    }
    r
}

/// Relies on `String::from_utf8`: it accepts exactly the valid UTF-8
/// sequences, and the string it returns holds those bytes.
#[verifier::external_body]
pub(crate) fn string_from_utf8(b: Vec<u8>) -> (r: Option<String>)
    ensures
        r is Some <==> valid_utf8(b@),
        r matches Some(s) ==> s@ == decode_utf8(b@),
{
    String::from_utf8(b).ok()
}

} // verus!
