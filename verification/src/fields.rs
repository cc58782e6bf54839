//! Little-endian encoding and decoding of the fixed-width integer fields
//! that all archive records are made of.

use vstd::prelude::*;

verus! {

/// The two little-endian bytes of a 16-bit field.
pub open spec fn u16_le(x: u16) -> Seq<u8> {
    seq![(x as int % 256) as u8, (x as int / 256) as u8]
}

/// The four little-endian bytes of a 32-bit field.
pub open spec fn u32_le(x: u32) -> Seq<u8> {
    seq![
        (x as int % 256) as u8,
        ((x as int / 256) % 256) as u8,
        ((x as int / 65536) % 256) as u8,
        (x as int / 16777216) as u8,
    ]
}

/// The 16-bit value read from two little-endian bytes.
pub open spec fn u16_of(s: Seq<u8>) -> u16
    recommends
        s.len() == 2,
{
    (s[0] as int + s[1] as int * 256) as u16
}

/// The 32-bit value read from four little-endian bytes.
pub open spec fn u32_of(s: Seq<u8>) -> u32
    recommends
        s.len() == 4,
{
    (s[0] as int + s[1] as int * 256 + s[2] as int * 65536 + s[3] as int * 16777216) as u32
}

/// Decoding two little-endian bytes undoes encoding a 16-bit field.
pub proof fn lemma_u16_round_trip(x: u16)
    ensures
        u16_of(u16_le(x)) == x,
{
    assert(x as int % 256 + (x as int / 256) * 256 == x as int) by (nonlinear_arith);
}

/// Decoding four little-endian bytes undoes encoding a 32-bit field.
pub proof fn lemma_u32_round_trip(x: u32)
    ensures
        u32_of(u32_le(x)) == x,
{
    let v = x as int;
    assert(v % 256 + ((v / 256) % 256) * 256 + ((v / 65536) % 256) * 65536 + (v / 16777216)
        * 16777216 == v) by (nonlinear_arith);
}

/// Appends the two little-endian bytes of a 16-bit field.
pub fn push_u16(out: &mut Vec<u8>, x: u16)
    ensures
        final(out)@ == old(out)@ + u16_le(x),
{
    out.push((x % 256) as u8);
    out.push((x / 256) as u8);
    assert(out@ =~= old(out)@ + u16_le(x));
}

/// Appends the four little-endian bytes of a 32-bit field.
pub fn push_u32(out: &mut Vec<u8>, x: u32)
    ensures
        final(out)@ == old(out)@ + u32_le(x),
{
    out.push((x % 256) as u8);
    out.push(((x / 256) % 256) as u8);
    out.push(((x / 65536) % 256) as u8);
    out.push((x / 16777216) as u8);
    assert(out@ =~= old(out)@ + u32_le(x));
}

/// Appends a run of bytes unchanged.
pub fn push_bytes(out: &mut Vec<u8>, s: &[u8])
    ensures
        final(out)@ == old(out)@ + s@,
{
    let mut i: usize = 0;
    while i < s.len()
        invariant
            i <= s@.len(),
            out@ == old(out)@ + s@.take(i as int),
        decreases s@.len() - i,
    {
        out.push(s[i]);
        assert(out@ =~= old(out)@ + s@.take(i as int + 1));
        i = i + 1;
    }
    assert(out@ =~= old(out)@ + s@);
}

/// Reads the 16-bit field stored at `pos`.
pub fn read_u16(data: &Vec<u8>, pos: usize) -> (r: u16)
    requires
        pos + 2 <= data@.len(),
    ensures
        r == u16_of(data@.subrange(pos as int, pos as int + 2)),
{
    let _n: usize = data.len();
    data[pos] as u16 + data[pos + 1] as u16 * 256
}

/// Reads the 32-bit field stored at `pos`.
pub fn read_u32(data: &Vec<u8>, pos: usize) -> (r: u32)
    requires
        pos + 4 <= data@.len(),
    ensures
        r == u32_of(data@.subrange(pos as int, pos as int + 4)),
{
    let _n: usize = data.len();
    data[pos] as u32 + data[pos + 1] as u32 * 256 + data[pos + 2] as u32 * 65536 + data[pos
        + 3] as u32 * 16777216
}

/// Encoding the 32-bit value read from four bytes restores the bytes: the
/// field codec loses nothing in either direction.
pub proof fn lemma_u32_le_of(s: Seq<u8>)
    requires
        s.len() == 4,
    ensures
        u32_le(u32_of(s)) == s,
{
    let v = s[0] as int + s[1] as int * 256 + s[2] as int * 65536 + s[3] as int * 16777216;
    assert(0 <= v < 4294967296) by (nonlinear_arith)
        requires
            0 <= s[0] < 256 && 0 <= s[1] < 256 && 0 <= s[2] < 256 && 0 <= s[3] < 256 && v == s[0]
                as int + s[1] as int * 256 + s[2] as int * 65536 + s[3] as int * 16777216,
    ;
    assert(v % 256 == s[0] && (v / 256) % 256 == s[1] && (v / 65536) % 256 == s[2] && v / 16777216
        == s[3]) by (nonlinear_arith)
        requires
            0 <= s[0] < 256 && 0 <= s[1] < 256 && 0 <= s[2] < 256 && 0 <= s[3] < 256 && v == s[0]
                as int + s[1] as int * 256 + s[2] as int * 65536 + s[3] as int * 16777216,
    ;
    assert(u32_le(u32_of(s)) =~= s);
}

/// Copies a borrowed run of bytes into an owned vector.
pub fn slice_to_vec(data: &[u8]) -> (r: Vec<u8>)
    ensures
        r@ == data@,
{
    let mut out: Vec<u8> = Vec::new();
    push_bytes(&mut out, data);
    out
}

/// Copies the run of bytes between two positions into an owned vector.
pub fn copy_range(data: &Vec<u8>, from: usize, to: usize) -> (r: Vec<u8>)
    requires
        from <= to <= data@.len(),
    ensures
        r@ == data@.subrange(from as int, to as int),
{
    let _n: usize = data.len();
    let mut out: Vec<u8> = Vec::new();
    let mut i: usize = from;
    while i < to
        invariant
            from <= i <= to <= data@.len(),
            data@.len() <= usize::MAX,
            out@ == data@.subrange(from as int, i as int),
        decreases to - i,
    {
        out.push(data[i]);
        assert(out@ =~= data@.subrange(from as int, i as int + 1));
        i = i + 1;
    }
    out
}

/// Tells whether the four bytes at `p` spell a given signature.
pub fn sig_at(data: &Vec<u8>, p: usize, sig: u32) -> (r: bool)
    requires
        p + 4 <= data@.len(),
    ensures
        r == (data@.subrange(p as int, p as int + 4) == u32_le(sig)),
{
    let v = read_u32(data, p);
    proof {
        lemma_u32_le_of(data@.subrange(p as int, p as int + 4));
        lemma_u32_round_trip(sig);
    }
    v == sig
}

/// Splits knowledge of a two-part run of bytes into its parts.
pub proof fn lemma_peel(data: Seq<u8>, p: int, a: Seq<u8>, b: Seq<u8>)
    requires
        0 <= p,
        p + a.len() + b.len() <= data.len(),
        data.subrange(p, p + a.len() + b.len()) == a + b,
    ensures
        data.subrange(p, p + a.len()) == a,
        data.subrange(p + a.len(), p + a.len() + b.len()) == b,
{
    let whole = data.subrange(p, p + a.len() + b.len());
    assert forall|i: int| 0 <= i < a.len() implies data.subrange(p, p + a.len())[i] == a[i] by {
        assert(whole[i] == (a + b)[i]);
    }
    assert(data.subrange(p, p + a.len()) =~= a);
    assert forall|i: int| 0 <= i < b.len() implies data.subrange(
        p + a.len(),
        p + a.len() + b.len(),
    )[i] == b[i] by {
        assert(whole[a.len() + i] == (a + b)[a.len() + i]);
    }
    assert(data.subrange(p + a.len(), p + a.len() + b.len()) =~= b);
}

} // verus!
