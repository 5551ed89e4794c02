//! Little-endian integers read out of byte sequences.
use vstd::prelude::*;

verus! {

/// The 16-bit little-endian value stored at `o`.
pub open spec fn le16(s: Seq<u8>, o: int) -> u16 {
    (s[o] as int + s[o + 1] as int * 0x100) as u16
}

/// The 32-bit little-endian value stored at `o`.
pub open spec fn le32(s: Seq<u8>, o: int) -> u32 {
    (le16(s, o) as int + le16(s, o + 2) as int * 0x1_0000) as u32
}

pub fn read_le16(b: &[u8], o: usize) -> (r: u16)
    requires
        o + 2 <= b@.len(),
    ensures
        r == le16(b@, o as int),
{
    b[o] as u16 + (b[o + 1] as u16) * 0x100
}

pub fn read_le32(b: &[u8], o: usize) -> (r: u32)
    requires
        o + 4 <= b@.len(),
    ensures
        r == le32(b@, o as int),
{
    let _n: usize = b.len();
    read_le16(b, o) as u32 + (read_le16(b, o + 2) as u32) * 0x1_0000
}

/// The signed 32-bit little-endian value stored at `o`.
pub fn read_lei32(b: &[u8], o: usize) -> (r: i32)
    requires
        o + 4 <= b@.len(),
    ensures
        r == le32(b@, o as int) as i32,
{
    read_le32(b, o) as i32
}

/// A copy of `b[from..to]`.
pub fn copy_range(b: &[u8], from: usize, to: usize) -> (r: Vec<u8>)
    requires
        from <= to <= b@.len(),
    ensures
        r@ == b@.subrange(from as int, to as int),
{
    let mut r: Vec<u8> = Vec::new();
    let mut i = from;
    while i < to
        invariant
            from <= i <= to <= b@.len(),
            r@ == b@.subrange(from as int, i as int),
        decreases to - i,
    {
        r.push(b[i]);
        i += 1;
        assert(r@ =~= b@.subrange(from as int, i as int));
    }
    r
}

} // verus!
