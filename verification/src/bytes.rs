//! Little-endian bytes.
use vstd::prelude::*;

verus! {

/// The two bytes of `v`, the low one first.
pub open spec fn le16(v: u16) -> Seq<u8> {
    seq![(v % 256) as u8, (v / 256) as u8]
}

/// The four bytes of `v`, the lowest first.
pub open spec fn le32(v: u32) -> Seq<u8> {
    seq![
        (v % 256) as u8,
        (v / 256 % 256) as u8,
        (v / 65536 % 256) as u8,
        (v / 16777216) as u8,
    ]
}

/// The number whose four bytes these are, the lowest first.
pub open spec fn from_le32(b: Seq<u8>) -> u32 {
    (b[0] + b[1] * 256 + b[2] * 65536 + b[3] * 16777216) as u32
}

/// The bits of a signed number.
pub open spec fn bits16(v: i16) -> u16 {
    if v < 0 {
        (v + 65536) as u16
    } else {
        v as u16
    }
}

/// Appends the two bytes of `v`.
pub fn push16(out: &mut Vec<u8>, v: u16)
    ensures
        final(out)@ == old(out)@ + le16(v),
{
    out.push((v % 256) as u8);
    out.push((v / 256) as u8);
    assert(out@ =~= old(out)@ + le16(v));
}

/// Appends the four bytes of `v`.
pub fn push32(out: &mut Vec<u8>, v: u32)
    ensures
        final(out)@ == old(out)@ + le32(v),
{
    out.push((v % 256) as u8);
    out.push((v / 256 % 256) as u8);
    out.push((v / 65536 % 256) as u8);
    out.push((v / 16777216) as u8);
    assert(out@ =~= old(out)@ + le32(v));
}

/// The bytes of a number read back give the number.
pub proof fn reading_undoes_writing(v: u32)
    ensures
        from_le32(le32(v)) == v,
{
    assert(v % 256 + (v / 256 % 256) * 256 + (v / 65536 % 256) * 65536 + (v / 16777216) * 16777216
        == v) by (bit_vector);
}

/// The bytes of a number, each times its place, add up to the number: in two bytes and in four,
/// the lowest first.
pub proof fn bytes_add_up(v: u16, w: u32)
    ensures
        le16(v).len() == 2,
        le16(v)[0] + 256 * le16(v)[1] == v,
        le32(w).len() == 4,
        le32(w)[0] + 256 * le32(w)[1] + 65536 * le32(w)[2] + 16777216 * le32(w)[3] == w,
{
    reading_undoes_writing(w);
    assert(w % 256 + (w / 256 % 256) * 256 + (w / 65536 % 256) * 65536 + (w / 16777216) * 16777216
        == w) by (bit_vector);
    assert(w / 16777216 < 256) by (bit_vector);
}

/// The bits of a number that is not negative are the number; those of a negative one are as far
/// below 65536 as it is below zero.
pub proof fn negative_numbers_wrap(v: i16)
    ensures
        v >= 0 ==> bits16(v) == v,
        v < 0 ==> 65536 - bits16(v) == -(v as int),
{
}

} // verus!
