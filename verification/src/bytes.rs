//! Little-endian integers on byte sequences, and positioned reads on a byte slice.

use vstd::prelude::*;

verus! {

/// The four little-endian bytes of `v`.
pub open spec fn spec_u32_le(v: u32) -> Seq<u8> {
    seq![(v % 256) as u8, ((v / 256) % 256) as u8, ((v / 65536) % 256) as u8, (v / 16777216) as u8]
}

/// The two little-endian bytes of `v`.
pub open spec fn spec_u16_le(v: u16) -> Seq<u8> {
    seq![(v % 256) as u8, (v / 256) as u8]
}

/// The little-endian `u32` stored at `p` in `s`.
pub open spec fn spec_u32_at(s: Seq<u8>, p: int) -> u32 {
    (s[p] + 256 * s[p + 1] + 65536 * s[p + 2] + 16777216 * s[p + 3]) as u32
}

/// The little-endian `u16` stored at `p` in `s`.
pub open spec fn spec_u16_at(s: Seq<u8>, p: int) -> u16 {
    (s[p] + 256 * s[p + 1]) as u16
}

/// `n` zero bytes.
pub open spec fn zeros(n: nat) -> Seq<u8> {
    Seq::new(n, |i: int| 0u8)
}

/// `k` bytes are available at position `p` of `s`.
pub open spec fn has_bytes(s: Seq<u8>, p: int, k: int) -> bool {
    0 <= p && p + k <= s.len()
}

pub proof fn lemma_u32_le_decode(v: u32)
    ensures
        ({
            let b = spec_u32_le(v);
            b.len() == 4 && spec_u32_at(b, 0) == v
        }),
{
    assert(v == (v % 256) + 256 * ((v / 256) % 256) + 65536 * ((v / 65536) % 256) + 16777216 * (v
        / 16777216)) by (bit_vector);
    assert(v / 16777216 < 256) by (bit_vector);
}

pub proof fn lemma_u16_le_decode(v: u16)
    ensures
        ({
            let b = spec_u16_le(v);
            b.len() == 2 && spec_u16_at(b, 0) == v
        }),
{
    assert(v == (v % 256) + 256 * (v / 256)) by (bit_vector);
    assert(v / 256 < 256) by (bit_vector);
}

/// Reading a `u32` at `p` only looks at the four bytes there.
pub proof fn lemma_u32_at_window(s: Seq<u8>, p: int, w: Seq<u8>, q: int)
    requires
        has_bytes(s, p, 4),
        has_bytes(w, q, 4),
        s.subrange(p, p + 4) == w.subrange(q, q + 4),
    ensures
        spec_u32_at(s, p) == spec_u32_at(w, q),
{
    assert(s.subrange(p, p + 4)[0] == s[p]);
    assert(w.subrange(q, q + 4)[0] == w[q]);
    assert(s.subrange(p, p + 4)[1] == s[p + 1]);
    assert(w.subrange(q, q + 4)[1] == w[q + 1]);
    assert(s.subrange(p, p + 4)[2] == s[p + 2]);
    assert(w.subrange(q, q + 4)[2] == w[q + 2]);
    assert(s.subrange(p, p + 4)[3] == s[p + 3]);
    assert(w.subrange(q, q + 4)[3] == w[q + 3]);
}

/// Reading a `u16` at `p` only looks at the two bytes there.
pub proof fn lemma_u16_at_window(s: Seq<u8>, p: int, w: Seq<u8>, q: int)
    requires
        has_bytes(s, p, 2),
        has_bytes(w, q, 2),
        s.subrange(p, p + 2) == w.subrange(q, q + 2),
    ensures
        spec_u16_at(s, p) == spec_u16_at(w, q),
{
    assert(s.subrange(p, p + 2)[0] == s[p]);
    assert(w.subrange(q, q + 2)[0] == w[q]);
    assert(s.subrange(p, p + 2)[1] == s[p + 1]);
    assert(w.subrange(q, q + 2)[1] == w[q + 1]);
}

/// Appends the little-endian bytes of `v`.
pub fn push_u32_le(out: &mut Vec<u8>, v: u32)
    ensures
        final(out)@ == old(out)@ + spec_u32_le(v),
{
    out.push((v % 256) as u8);
    out.push((v / 256 % 256) as u8);
    out.push((v / 65536 % 256) as u8);
    out.push((v / 16777216) as u8);
    assert(final(out)@ =~= old(out)@ + spec_u32_le(v));
}

/// Appends the little-endian bytes of `v`.
pub fn push_u16_le(out: &mut Vec<u8>, v: u16)
    ensures
        final(out)@ == old(out)@ + spec_u16_le(v),
{
    out.push((v % 256) as u8);
    out.push((v / 256) as u8);
    assert(final(out)@ =~= old(out)@ + spec_u16_le(v));
}

/// Appends all of `bytes`.
pub fn push_bytes(out: &mut Vec<u8>, bytes: &[u8])
    ensures
        final(out)@ == old(out)@ + bytes@,
{
    let mut i: usize = 0;
    while i < bytes.len()
        invariant
            i <= bytes@.len(),
            out@ == old(out)@ + bytes@.subrange(0, i as int),
        decreases bytes@.len() - i,
    {
        out.push(bytes[i]);
        i = i + 1;
        assert(out@ =~= old(out)@ + bytes@.subrange(0, i as int));
    }
    assert(bytes@.subrange(0, i as int) =~= bytes@);
}

/// Whether `k` bytes can be read at position `p` of `data`.
pub fn available(data: &[u8], p: u128, k: u128) -> (r: bool)
    requires
        k <= 0x1_0000_0000,
    ensures
        r == has_bytes(data@, p as int, k as int),
{
    p <= data.len() as u128 && k <= data.len() as u128 - p
}

/// The little-endian `u32` at `p`, if four bytes are there.
pub fn read_u32_le(data: &[u8], p: u128) -> (r: Option<u32>)
    ensures
        r == (if has_bytes(data@, p as int, 4) {
            Some(spec_u32_at(data@, p as int))
        } else {
            None::<u32>
        }),
{
    if !available(data, p, 4) {
        return None;
    }
    let q = p as usize;
    let v: u32 = data[q] as u32 + 256 * (data[q + 1] as u32) + 65536 * (data[q + 2] as u32)
        + 16777216 * (data[q + 3] as u32);
    Some(v)
}

/// The little-endian `u16` at `p`, if two bytes are there.
pub fn read_u16_le(data: &[u8], p: u128) -> (r: Option<u16>)
    ensures
        r == (if has_bytes(data@, p as int, 2) {
            Some(spec_u16_at(data@, p as int))
        } else {
            None::<u16>
        }),
{
    if !available(data, p, 2) {
        return None;
    }
    let q = p as usize;
    let v: u16 = data[q] as u16 + 256 * (data[q + 1] as u16);
    Some(v)
}

/// The `k` bytes at `p`, if they are there.
pub fn read_bytes(data: &[u8], p: u128, k: u128) -> (r: Option<Vec<u8>>)
    requires
        k <= 0x1_0000_0000,
    ensures
        r matches Some(v) ==> has_bytes(data@, p as int, k as int) && v@ == data@.subrange(
            p as int,
            p + k,
        ),
        r is None ==> !has_bytes(data@, p as int, k as int),
{
    if !available(data, p, k) {
        return None;
    }
    let n = data.len();
    assert(p + k <= n);
    let start = p as usize;
    let end = (p + k) as usize;
    let mut v: Vec<u8> = Vec::new();
    push_bytes(&mut v, &data[start..end]);
    assert(v@ =~= data@.subrange(p as int, p + k));
    Some(v)
}

} // verus!
