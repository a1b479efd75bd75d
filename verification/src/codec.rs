//! Byte-level framing shared by every wire encoding of this crate.
//!
//! Integer fields are fixed-width big-endian 32-bit values; sequence
//! lengths are 64-bit little-endian prefixes; points and scalars use their
//! canonical curve encodings from [`crate::curve`].

use vstd::prelude::*;

verus! {

/// The four big-endian bytes of a 32-bit integer.
pub open spec fn u32_be(v: u32) -> Seq<u8> {
    seq![(v >> 24) as u8, (v >> 16) as u8, (v >> 8) as u8, v as u8]
}

/// The eight little-endian bytes of a 64-bit integer.
pub open spec fn u64_le(v: u64) -> Seq<u8> {
    seq![
        v as u8,
        (v >> 8) as u8,
        (v >> 16) as u8,
        (v >> 24) as u8,
        (v >> 32) as u8,
        (v >> 40) as u8,
        (v >> 48) as u8,
        (v >> 56) as u8,
    ]
}

/// Two integers with the same big-endian bytes are equal.
pub proof fn lemma_u32_be_injective(a: u32, b: u32)
    requires
        u32_be(a) == u32_be(b),
    ensures
        a == b,
{
    assert(u32_be(a)[0] == u32_be(b)[0]);
    assert(u32_be(a)[1] == u32_be(b)[1]);
    assert(u32_be(a)[2] == u32_be(b)[2]);
    assert(u32_be(a)[3] == u32_be(b)[3]);
    assert((a >> 24) as u8 == (b >> 24) as u8 && (a >> 16) as u8 == (b >> 16) as u8
        && (a >> 8) as u8 == (b >> 8) as u8 && a as u8 == b as u8 ==> a == b) by (bit_vector);
}

/// Two integers with the same little-endian bytes are equal.
pub proof fn lemma_u64_le_injective(a: u64, b: u64)
    requires
        u64_le(a) == u64_le(b),
    ensures
        a == b,
{
    assert(forall|i: int| 0 <= i < 8 ==> u64_le(a)[i] == u64_le(b)[i]);
    assert(a as u8 == b as u8 && (a >> 8) as u8 == (b >> 8) as u8 && (a >> 16) as u8 == (b
        >> 16) as u8 && (a >> 24) as u8 == (b >> 24) as u8 && (a >> 32) as u8 == (b >> 32) as u8
        && (a >> 40) as u8 == (b >> 40) as u8 && (a >> 48) as u8 == (b >> 48) as u8 && (a
        >> 56) as u8 == (b >> 56) as u8 ==> a == b) by (bit_vector);
}

/// Appends the big-endian bytes of `v` to `buf`.
pub fn push_u32_be(buf: &mut Vec<u8>, v: u32)
    ensures
        final(buf)@ == old(buf)@ + u32_be(v),
{
    buf.push((v >> 24) as u8);
    buf.push((v >> 16) as u8);
    buf.push((v >> 8) as u8);
    buf.push(v as u8);
    proof {
        assert(final(buf)@ =~= old(buf)@ + u32_be(v));
    }
}

/// Appends the little-endian bytes of `v` to `buf`.
pub fn push_u64_le(buf: &mut Vec<u8>, v: u64)
    ensures
        final(buf)@ == old(buf)@ + u64_le(v),
{
    buf.push(v as u8);
    buf.push((v >> 8) as u8);
    buf.push((v >> 16) as u8);
    buf.push((v >> 24) as u8);
    buf.push((v >> 32) as u8);
    buf.push((v >> 40) as u8);
    buf.push((v >> 48) as u8);
    buf.push((v >> 56) as u8);
    proof {
        assert(final(buf)@ =~= old(buf)@ + u64_le(v));
    }
}

/// Appends every byte of `src` to `buf`.
pub fn push_bytes(buf: &mut Vec<u8>, src: &[u8])
    ensures
        final(buf)@ == old(buf)@ + src@,
{
    let n = src.len();
    let mut i: usize = 0;
    while i < n
        invariant
            n == src@.len(),
            i <= n,
            buf@ == old(buf)@ + src@.take(i as int),
        decreases n - i,
    {
        let b = *vstd::slice::slice_index_get(src, i);
        buf.push(b);
        proof {
            assert(buf@ =~= old(buf)@ + src@.take(i as int + 1));
        }
        i = i + 1;
    }
    proof {
        assert(old(buf)@ + src@.take(n as int) =~= old(buf)@ + src@);
    }
}

/// Reads the big-endian 32-bit integer at offset `pos` of `b`.
pub fn read_u32_be(b: &[u8], pos: usize) -> (r: u32)
    requires
        pos + 4 <= b@.len(),
    ensures
        u32_be(r) == b@.subrange(pos as int, pos as int + 4),
{
    let n = b.len();
    let b0 = *vstd::slice::slice_index_get(b, pos);
    let b1 = *vstd::slice::slice_index_get(b, pos + 1);
    let b2 = *vstd::slice::slice_index_get(b, pos + 2);
    let b3 = *vstd::slice::slice_index_get(b, pos + 3);
    let r: u32 = ((b0 as u32) << 24) | ((b1 as u32) << 16) | ((b2 as u32) << 8) | (b3 as u32);
    proof {
        let v = ((b0 as u32) << 24) | ((b1 as u32) << 16) | ((b2 as u32) << 8) | (b3 as u32);
        assert((v >> 24) as u8 == b0 && (v >> 16) as u8 == b1 && (v >> 8) as u8 == b2
            && v as u8 == b3) by (bit_vector)
            requires
                v == ((b0 as u32) << 24) | ((b1 as u32) << 16) | ((b2 as u32) << 8) | (b3 as u32),
        ;
        assert(u32_be(r) =~= b@.subrange(pos as int, pos as int + 4));
    }
    r
}

/// Reads the little-endian 64-bit integer at offset `pos` of `b`.
pub fn read_u64_le(b: &[u8], pos: usize) -> (r: u64)
    requires
        pos + 8 <= b@.len(),
    ensures
        u64_le(r) == b@.subrange(pos as int, pos as int + 8),
{
    let n = b.len();
    let b0 = *vstd::slice::slice_index_get(b, pos);
    let b1 = *vstd::slice::slice_index_get(b, pos + 1);
    let b2 = *vstd::slice::slice_index_get(b, pos + 2);
    let b3 = *vstd::slice::slice_index_get(b, pos + 3);
    let b4 = *vstd::slice::slice_index_get(b, pos + 4);
    let b5 = *vstd::slice::slice_index_get(b, pos + 5);
    let b6 = *vstd::slice::slice_index_get(b, pos + 6);
    let b7 = *vstd::slice::slice_index_get(b, pos + 7);
    let r: u64 = (b0 as u64) | ((b1 as u64) << 8) | ((b2 as u64) << 16) | ((b3 as u64) << 24) | (
    (b4 as u64) << 32) | ((b5 as u64) << 40) | ((b6 as u64) << 48) | ((b7 as u64) << 56);
    proof {
        let v = (b0 as u64) | ((b1 as u64) << 8) | ((b2 as u64) << 16) | ((b3 as u64) << 24) | (
        (b4 as u64) << 32) | ((b5 as u64) << 40) | ((b6 as u64) << 48) | ((b7 as u64) << 56);
        assert(v as u8 == b0 && (v >> 8) as u8 == b1 && (v >> 16) as u8 == b2 && (v >> 24) as u8
            == b3 && (v >> 32) as u8 == b4 && (v >> 40) as u8 == b5 && (v >> 48) as u8 == b6 && (v
            >> 56) as u8 == b7) by (bit_vector)
            requires
                v == (b0 as u64) | ((b1 as u64) << 8) | ((b2 as u64) << 16) | ((b3 as u64) << 24)
                    | ((b4 as u64) << 32) | ((b5 as u64) << 40) | ((b6 as u64) << 48) | ((
                b7 as u64) << 56),
        ;
        assert(u64_le(r) =~= b@.subrange(pos as int, pos as int + 8));
    }
    r
}

/// Compares two byte strings for equality.
pub fn bytes_equal(a: &[u8], b: &[u8]) -> (r: bool)
    ensures
        r <==> a@ == b@,
{
    if a.len() != b.len() {
        proof {
            assert(a@.len() != b@.len());
        }
        return false;
    }
    let n = a.len();
    let mut i: usize = 0;
    while i < n
        invariant
            n == a@.len() && n == b@.len(),
            i <= n,
            forall|j: int| 0 <= j < i ==> a@[j] == b@[j],
        decreases n - i,
    {
        if *vstd::slice::slice_index_get(a, i) != *vstd::slice::slice_index_get(b, i) {
            return false;
        }
        i = i + 1;
    }
    proof {
        assert(a@ =~= b@);
    }
    true
}

} // verus!
