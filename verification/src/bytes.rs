//! Byte-level helpers: copying, little-endian integers, and the byte form
//! of 32-byte identifiers.

use vstd::prelude::*;

use crate::types::Hash256;

verus! {

/// A fresh vector with the same bytes.
pub fn dup_bytes(v: &Vec<u8>) -> (r: Vec<u8>)
    ensures
        r@ == v@,
{
    let mut r: Vec<u8> = Vec::new();
    let mut i: usize = 0;
    while i < v.len()
        invariant
            i <= v@.len(),
            r@ == v@.subrange(0, i as int),
        decreases v@.len() - i,
    {
        r.push(v[i]);
        proof {
            assert(r@ =~= v@.subrange(0, i + 1));
        }
        i += 1;
    }
    proof {
        assert(r@ =~= v@);
    }
    r
}

/// A fresh vector holding `v[from..to]`.
pub fn copy_range(v: &Vec<u8>, from: usize, to: usize) -> (r: Vec<u8>)
    requires
        from <= to,
        to <= v.len(),
    ensures
        r@ == v@.subrange(from as int, to as int),
{
    let mut r: Vec<u8> = Vec::new();
    let mut i: usize = from;
    while i < to
        invariant
            from <= i <= to,
            to <= v@.len(),
            r@ == v@.subrange(from as int, i as int),
        decreases to - i,
    {
        r.push(v[i]);
        proof {
            assert(r@ =~= v@.subrange(from as int, i + 1));
        }
        i += 1;
    }
    r
}

/// The eight little-endian bytes of a 64-bit value.
pub open spec fn le64_bytes(x: u64) -> Seq<u8> {
    seq![
        (x % 256) as u8,
        ((x / 256) % 256) as u8,
        ((x / 0x10000) % 256) as u8,
        ((x / 0x1000000) % 256) as u8,
        ((x / 0x1_0000_0000) % 256) as u8,
        ((x / 0x100_0000_0000) % 256) as u8,
        ((x / 0x1_0000_0000_0000) % 256) as u8,
        ((x / 0x100_0000_0000_0000) % 256) as u8,
    ]
}

/// The value eight little-endian bytes denote.
pub open spec fn le64_val(s: Seq<u8>) -> u64 {
    (s[0] + s[1] * 0x100 + s[2] * 0x10000 + s[3] * 0x100_0000 + s[4] * 0x1_0000_0000
        + s[5] * 0x100_0000_0000 + s[6] * 0x1_0000_0000_0000
        + s[7] * 0x100_0000_0000_0000) as u64
}

/// Reading back the eight bytes of a value yields the value.
pub proof fn lemma_le64_roundtrip(x: u64)
    ensures
        le64_val(le64_bytes(x)) == x,
{
    assert(x % 256 + (x / 256) % 256 * 0x100 + (x / 0x10000) % 256 * 0x10000 + (x / 0x1000000)
        % 256 * 0x100_0000 + (x / 0x1_0000_0000) % 256 * 0x1_0000_0000 + (x / 0x100_0000_0000)
        % 256 * 0x100_0000_0000 + (x / 0x1_0000_0000_0000) % 256 * 0x1_0000_0000_0000 + (x
        / 0x100_0000_0000_0000) % 256 * 0x100_0000_0000_0000 == x) by (bit_vector);
}

/// Appends the eight little-endian bytes of `x`.
pub fn push_le64(out: &mut Vec<u8>, x: u64)
    ensures
        final(out)@ == old(out)@ + le64_bytes(x),
{
    out.push((x % 256) as u8);
    out.push(((x / 256) % 256) as u8);
    out.push(((x / 0x10000) % 256) as u8);
    out.push(((x / 0x1000000) % 256) as u8);
    out.push(((x / 0x1_0000_0000) % 256) as u8);
    out.push(((x / 0x100_0000_0000) % 256) as u8);
    out.push(((x / 0x1_0000_0000_0000) % 256) as u8);
    out.push(((x / 0x100_0000_0000_0000) % 256) as u8);
    proof {
        assert(out@ =~= old(out)@ + le64_bytes(x));
    }
}

/// Reads the 64-bit value at `start`.
pub fn read_le64(v: &Vec<u8>, start: usize) -> (r: u64)
    requires
        start + 8 <= v.len(),
    ensures
        r == le64_val(v@.subrange(start as int, start as int + 8)),
{
    let b0 = v[start] as u64;
    let b1 = v[start + 1] as u64;
    let b2 = v[start + 2] as u64;
    let b3 = v[start + 3] as u64;
    let b4 = v[start + 4] as u64;
    let b5 = v[start + 5] as u64;
    let b6 = v[start + 6] as u64;
    let b7 = v[start + 7] as u64;
    let r = b0 + b1 * 0x100 + b2 * 0x10000 + b3 * 0x100_0000 + b4 * 0x1_0000_0000 + b5
        * 0x100_0000_0000 + b6 * 0x1_0000_0000_0000 + b7 * 0x100_0000_0000_0000;
    proof {
        let s = v@.subrange(start as int, start as int + 8);
        assert(s[0] == v@[start as int]);
        assert(s[1] == v@[start as int + 1]);
        assert(s[2] == v@[start as int + 2]);
        assert(s[3] == v@[start as int + 3]);
        assert(s[4] == v@[start as int + 4]);
        assert(s[5] == v@[start as int + 5]);
        assert(s[6] == v@[start as int + 6]);
        assert(s[7] == v@[start as int + 7]);
    }
    r
}

/// The 32 bytes of an identifier, little-endian word after word.
pub open spec fn hash_bytes(h: Hash256) -> Seq<u8> {
    le64_bytes(h.w0) + le64_bytes(h.w1) + le64_bytes(h.w2) + le64_bytes(h.w3)
}

/// The identifier 32 bytes denote.
pub open spec fn hash_from_bytes(s: Seq<u8>) -> Hash256 {
    Hash256 {
        w0: le64_val(s.subrange(0, 8)),
        w1: le64_val(s.subrange(8, 16)),
        w2: le64_val(s.subrange(16, 24)),
        w3: le64_val(s.subrange(24, 32)),
    }
}

/// An identifier's byte form is 32 bytes long.
pub proof fn lemma_hash_bytes_len(h: Hash256)
    ensures
        hash_bytes(h).len() == 32,
{
}

/// Reading back the 32 bytes of an identifier yields the identifier.
pub proof fn lemma_hash_roundtrip(h: Hash256)
    ensures
        hash_from_bytes(hash_bytes(h)) == h,
{
    let s = hash_bytes(h);
    assert(s.subrange(0, 8) =~= le64_bytes(h.w0));
    assert(s.subrange(8, 16) =~= le64_bytes(h.w1));
    assert(s.subrange(16, 24) =~= le64_bytes(h.w2));
    assert(s.subrange(24, 32) =~= le64_bytes(h.w3));
    lemma_le64_roundtrip(h.w0);
    lemma_le64_roundtrip(h.w1);
    lemma_le64_roundtrip(h.w2);
    lemma_le64_roundtrip(h.w3);
}

/// Appends the 32 bytes of an identifier.
pub fn push_hash(out: &mut Vec<u8>, h: &Hash256)
    ensures
        final(out)@ == old(out)@ + hash_bytes(*h),
{
    push_le64(out, h.w0);
    push_le64(out, h.w1);
    push_le64(out, h.w2);
    push_le64(out, h.w3);
    proof {
        assert(out@ =~= old(out)@ + hash_bytes(*h));
    }
}

/// Reads the identifier at `start`.
pub fn read_hash(v: &Vec<u8>, start: usize) -> (r: Hash256)
    requires
        start + 32 <= v.len(),
    ensures
        r == hash_from_bytes(v@.subrange(start as int, start as int + 32)),
{
    let r = Hash256 {
        w0: read_le64(v, start),
        w1: read_le64(v, start + 8),
        w2: read_le64(v, start + 16),
        w3: read_le64(v, start + 24),
    };
    proof {
        let s = v@.subrange(start as int, start as int + 32);
        assert(s.subrange(0, 8) =~= v@.subrange(start as int, start as int + 8));
        assert(s.subrange(8, 16) =~= v@.subrange(start as int + 8, start as int + 16));
        assert(s.subrange(16, 24) =~= v@.subrange(start as int + 16, start as int + 24));
        assert(s.subrange(24, 32) =~= v@.subrange(start as int + 24, start as int + 32));
    }
    r
}

} // verus!
