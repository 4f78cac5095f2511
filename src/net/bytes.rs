use vstd::prelude::*;

use crate::model::Position;

verus! {

/// Low byte of a non-negative integer.
pub open spec fn byte(u: int) -> u8 {
    (u % 256) as u8
}

/// Little-endian bytes of a 16-bit value.
pub open spec fn le16(u: int) -> Seq<u8> {
    seq![byte(u), byte(u / 256)]
}

/// Little-endian bytes of a 32-bit value.
pub open spec fn le32(u: int) -> Seq<u8> {
    seq![byte(u), byte(u / 256), byte(u / 256 / 256), byte(u / 256 / 256 / 256)]
}

/// Little-endian bytes of a 64-bit value.
pub open spec fn le64(u: int) -> Seq<u8> {
    le32(u % 0x1_0000_0000) + le32(u / 0x1_0000_0000)
}

/// The value of two little-endian bytes.
pub open spec fn from_le16(b0: u8, b1: u8) -> int {
    b0 + 256 * b1
}

/// The value of four little-endian bytes.
pub open spec fn from_le32(s: Seq<u8>) -> int {
    s[0] + 256 * s[1] + 0x10000 * s[2] + 0x1000000 * s[3]
}

/// The value of eight little-endian bytes.
pub open spec fn from_le64(s: Seq<u8>) -> int {
    from_le32(s.subrange(0, 4)) + 0x1_0000_0000 * from_le32(s.subrange(4, 8))
}

/// The two's complement bit pattern of an `i32`, as an unsigned value.
pub open spec fn bits32(x: i32) -> int {
    if x < 0 {
        x + 0x1_0000_0000
    } else {
        x as int
    }
}

/// The `i32` whose two's complement bit pattern is `u`.
pub open spec fn signed32(u: int) -> int {
    if u >= 0x8000_0000 {
        u - 0x1_0000_0000
    } else {
        u
    }
}

/// Wire form of a position: x, y and z, each four little-endian bytes.
pub open spec fn position_bytes(p: Position) -> Seq<u8> {
    le32(bits32(p.x)) + le32(bits32(p.y)) + le32(bits32(p.z))
}

/// The position that twelve bytes of wire form stand for.
pub open spec fn position_of(s: Seq<u8>) -> (int, int, int) {
    (
        signed32(from_le32(s.subrange(0, 4))),
        signed32(from_le32(s.subrange(4, 8))),
        signed32(from_le32(s.subrange(8, 12))),
    )
}

pub proof fn lemma_le32(u: int)
    requires
        0 <= u < 0x1_0000_0000,
    ensures
        le32(u).len() == 4,
        from_le32(le32(u)) == u,
{
    let u1 = u / 256;
    let u2 = u1 / 256;
    let u3 = u2 / 256;
    assert(u == u % 256 + 256 * u1);
    assert(u1 == u1 % 256 + 256 * u2);
    assert(u2 == u2 % 256 + 256 * u3);
    assert(u3 < 256);
}

pub proof fn lemma_le64(u: int)
    requires
        0 <= u < 0x1_0000_0000_0000_0000,
    ensures
        le64(u).len() == 8,
        from_le64(le64(u)) == u,
{
    let lo = u % 0x1_0000_0000;
    let hi = u / 0x1_0000_0000;
    assert(u == lo + 0x1_0000_0000 * hi);
    assert(hi < 0x1_0000_0000);
    lemma_le32(lo);
    lemma_le32(hi);
    assert(le64(u).subrange(0, 4) =~= le32(lo));
    assert(le64(u).subrange(4, 8) =~= le32(hi));
}

pub proof fn lemma_position(p: Position)
    ensures
        position_bytes(p).len() == 12,
        position_of(position_bytes(p)) == (p.x as int, p.y as int, p.z as int),
{
    let s = position_bytes(p);
    lemma_le32(bits32(p.x));
    lemma_le32(bits32(p.y));
    lemma_le32(bits32(p.z));
    assert(s.subrange(0, 4) =~= le32(bits32(p.x)));
    assert(s.subrange(4, 8) =~= le32(bits32(p.y)));
    assert(s.subrange(8, 12) =~= le32(bits32(p.z)));
}

/// Appends `b` to `out`.
pub fn push_bytes(out: &mut Vec<u8>, b: &[u8])
    ensures
        final(out)@ == old(out)@ + b@,
{
    let ghost start = out@;
    let mut i: usize = 0;
    while i < b.len()
        invariant
            i <= b@.len(),
            out@ == start + b@.subrange(0, i as int),
        decreases b@.len() - i,
    {
        out.push(b[i]);
        i = i + 1;
        assert(b@.subrange(0, i as int) =~= b@.subrange(0, i - 1) + seq![b@[i - 1]]);
    }
    assert(b@.subrange(0, i as int) =~= b@);
}

/// Appends the two little-endian bytes of `v`.
pub fn push_u16(out: &mut Vec<u8>, v: u16)
    ensures
        final(out)@ == old(out)@ + le16(v as int),
{
    out.push((v % 256) as u8);
    out.push((v / 256) as u8);
    assert(final(out)@ =~= old(out)@ + le16(v as int));
}

/// Appends the four little-endian bytes of `v`.
pub fn push_u32(out: &mut Vec<u8>, v: u32)
    ensures
        final(out)@ == old(out)@ + le32(v as int),
{
    out.push((v % 256) as u8);
    out.push((v / 256 % 256) as u8);
    out.push((v / 256 / 256 % 256) as u8);
    out.push((v / 256 / 256 / 256 % 256) as u8);
    assert(final(out)@ =~= old(out)@ + le32(v as int));
}

/// Appends the eight little-endian bytes of `v`.
pub fn push_u64(out: &mut Vec<u8>, v: u64)
    ensures
        final(out)@ == old(out)@ + le64(v as int),
{
    push_u32(out, (v % 0x1_0000_0000) as u32);
    push_u32(out, (v / 0x1_0000_0000) as u32);
    assert(final(out)@ =~= old(out)@ + le64(v as int));
}

/// Appends the two's complement little-endian bytes of `v`.
pub fn push_i32(out: &mut Vec<u8>, v: i32)
    ensures
        final(out)@ == old(out)@ + le32(bits32(v)),
{
    let u: u32 = if v < 0 {
        (v as i64 + 0x1_0000_0000i64) as u32
    } else {
        v as u32
    };
    push_u32(out, u);
}

/// Appends the wire form of a position.
pub fn push_position(out: &mut Vec<u8>, p: Position)
    ensures
        final(out)@ == old(out)@ + position_bytes(p),
{
    push_i32(out, p.x);
    push_i32(out, p.y);
    push_i32(out, p.z);
    assert(final(out)@ =~= old(out)@ + position_bytes(p));
}

} // verus!
