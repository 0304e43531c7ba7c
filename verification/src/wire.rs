use vstd::prelude::*;

verus! {

/// Little-endian bytes of a 16-bit value.
pub open spec fn le16(v: u16) -> Seq<u8> {
    seq![(v % 256) as u8, (v / 256) as u8]
}

/// Little-endian bytes of a 32-bit value.
pub open spec fn le32(v: u32) -> Seq<u8> {
    seq![(v % 256) as u8, ((v / 256) % 256) as u8, ((v / 65536) % 256) as u8, (v / 16777216) as u8]
}

/// The 16-bit little-endian value stored at `s[i..i + 2]`.
pub open spec fn read_u16(s: Seq<u8>, i: int) -> u16 {
    (s[i] + 256 * s[i + 1]) as u16
}

/// The 32-bit little-endian value stored at `s[i..i + 4]`.
pub open spec fn read_u32(s: Seq<u8>, i: int) -> u32 {
    (s[i] + 256 * s[i + 1] + 65536 * s[i + 2] + 16777216 * s[i + 3]) as u32
}

/// Values are stored least significant byte first.
pub proof fn lemma_little_endian(v: u16, w: u32, s: Seq<u8>, i: int)
    requires
        0 <= i,
        i + 4 <= s.len(),
    ensures
        le16(v).len() == 2 && le16(v)[0] as int == v % 256 && le16(v)[1] as int == v / 256,
        le32(w).len() == 4 && le32(w)[0] as int == w % 256 && le32(w)[1] as int == (w / 256) % 256
            && le32(w)[2] as int == (w / 65536) % 256 && le32(w)[3] as int == w / 16777216,
        read_u16(s, i) as int == s[i] + 256 * s[i + 1],
        read_u32(s, i) as int == s[i] + 256 * s[i + 1] + 65536 * s[i + 2] + 16777216 * s[i + 3],
{
}

/// Reading back a written 16-bit value gives the value.
pub proof fn lemma_read_le16(v: u16, pre: Seq<u8>, post: Seq<u8>)
    ensures
        read_u16(pre + le16(v) + post, pre.len() as int) == v,
{
    let s = pre + le16(v) + post;
    assert(s[pre.len() as int] == (v % 256) as u8);
    assert(s[pre.len() as int + 1] == (v / 256) as u8);
}

/// Reading back a written 32-bit value gives the value.
pub proof fn lemma_read_le32(v: u32, pre: Seq<u8>, post: Seq<u8>)
    ensures
        read_u32(pre + le32(v) + post, pre.len() as int) == v,
{
    let s = pre + le32(v) + post;
    let i = pre.len() as int;
    assert(s[i] == (v % 256) as u8);
    assert(s[i + 1] == ((v / 256) % 256) as u8);
    assert(s[i + 2] == ((v / 65536) % 256) as u8);
    assert(s[i + 3] == (v / 16777216) as u8);
    assert((v % 256) + 256 * ((v / 256) % 256) + 65536 * ((v / 65536) % 256) + 16777216 * (v
        / 16777216) == v) by (nonlinear_arith);
}

/// Appends the little-endian bytes of `v`.
pub fn push_u16_le(out: &mut Vec<u8>, v: u16)
    ensures
        final(out)@ == old(out)@ + le16(v),
{
    out.push((v % 256) as u8);
    out.push((v / 256) as u8);
    assert(final(out)@ =~= old(out)@ + le16(v));
}

/// Appends the little-endian bytes of `v`.
pub fn push_u32_le(out: &mut Vec<u8>, v: u32)
    ensures
        final(out)@ == old(out)@ + le32(v),
{
    out.push((v % 256) as u8);
    out.push(((v / 256) % 256) as u8);
    out.push(((v / 65536) % 256) as u8);
    out.push((v / 16777216) as u8);
    assert(final(out)@ =~= old(out)@ + le32(v));
}

/// Reads a little-endian 16-bit value at position `i`.
pub fn get_u16_le(d: &[u8], i: usize) -> (r: u16)
    requires
        i + 2 <= d@.len(),
    ensures
        r == read_u16(d@, i as int),
{
    (d[i] as u16) + 256 * (d[i + 1] as u16)
}

/// Reads a little-endian 32-bit value at position `i`.
pub fn get_u32_le(d: &[u8], i: usize) -> (r: u32)
    requires
        i + 4 <= d@.len(),
    ensures
        r == read_u32(d@, i as int),
{
    (d[i] as u32) + 256 * (d[i + 1] as u32) + 65536 * (d[i + 2] as u32) + 16777216 * (d[i
        + 3] as u32)
}

/// Appends every byte of `body`.
pub fn push_bytes(out: &mut Vec<u8>, body: &[u8])
    ensures
        final(out)@ == old(out)@ + body@,
{
    let mut i: usize = 0;
    while i < body.len()
        invariant
            i <= body@.len(),
            out@ == old(out)@ + body@.subrange(0, i as int),
        decreases body@.len() - i,
    {
        out.push(body[i]);
        i = i + 1;
        assert(out@ =~= old(out)@ + body@.subrange(0, i as int));
    }
    assert(body@.subrange(0, body@.len() as int) =~= body@);
}

} // verus!
