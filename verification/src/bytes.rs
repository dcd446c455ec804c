//! Little-endian integers inside byte images (disk images, firmware
//! tables, executables).
use vstd::prelude::*;

verus! {

/// The little-endian `u16` at `off` of `s`.
pub open spec fn le16(s: Seq<u8>, off: int) -> int {
    s[off] + 0x100 * s[off + 1]
}

/// The little-endian `u32` at `off` of `s`.
pub open spec fn le32(s: Seq<u8>, off: int) -> int {
    le16(s, off) + 0x1_0000 * le16(s, off + 2)
}

/// The little-endian `u64` at `off` of `s`.
pub open spec fn le64(s: Seq<u8>, off: int) -> int {
    le32(s, off) + 0x1_0000_0000 * le32(s, off + 4)
}

/// Reads the little-endian `u16` at `off`.
pub fn read_u16(s: &[u8], off: usize) -> (r: u16)
    requires
        off + 2 <= s@.len(),
    ensures
        r == le16(s@, off as int),
{
    s[off] as u16 + 0x100 * (s[off + 1] as u16)
}

/// Reads the little-endian `u32` at `off`.
pub fn read_u32(s: &[u8], off: usize) -> (r: u32)
    requires
        off + 4 <= s@.len(),
    ensures
        r == le32(s@, off as int),
{
    let _len = s.len();
    read_u16(s, off) as u32 + 0x1_0000 * (read_u16(s, off + 2) as u32)
}

/// Reads the little-endian `u64` at `off`.
pub fn read_u64(s: &[u8], off: usize) -> (r: u64)
    requires
        off + 8 <= s@.len(),
    ensures
        r == le64(s@, off as int),
{
    let _len = s.len();
    read_u32(s, off) as u64 + 0x1_0000_0000 * (read_u32(s, off + 4) as u64)
}

/// Writes `v` as a little-endian `u16` at `off`.
pub fn write_u16(s: &mut Vec<u8>, off: usize, v: u16)
    requires
        off + 2 <= old(s)@.len(),
    ensures
        final(s)@ == old(s)@.update(off as int, (v % 0x100) as u8).update(off + 1, (v / 0x100) as u8),
        le16(final(s)@, off as int) == v,
{
    let _len = s.len();
    s.set(off, (v % 0x100) as u8);
    s.set(off + 1, (v / 0x100) as u8);
}

/// `s` with `v` written as a little-endian `u16` at `off`.
pub open spec fn put16(s: Seq<u8>, off: int, v: int) -> Seq<u8> {
    s.update(off, (v % 0x100) as u8).update(off + 1, (v / 0x100 % 0x100) as u8)
}

/// `s` with `v` written as a little-endian `u32` at `off`.
pub open spec fn put32(s: Seq<u8>, off: int, v: int) -> Seq<u8> {
    put16(put16(s, off, v % 0x1_0000), off + 2, v / 0x1_0000 % 0x1_0000)
}

/// Writes `v` as a little-endian `u32` at `off`.
pub fn write_u32(s: &mut Vec<u8>, off: usize, v: u32)
    requires
        off + 4 <= old(s)@.len(),
    ensures
        final(s)@ == put32(old(s)@, off as int, v as int),
        le32(final(s)@, off as int) == v,
{
    let _len = s.len();
    write_u16(s, off, (v % 0x1_0000) as u16);
    write_u16(s, off + 2, (v / 0x1_0000) as u16);
}

/// `s` with `v` written as a little-endian `u64` at `off`.
pub open spec fn put64(s: Seq<u8>, off: int, v: int) -> Seq<u8> {
    put32(put32(s, off, v % 0x1_0000_0000), off + 4, v / 0x1_0000_0000 % 0x1_0000_0000)
}

/// Writes `v` as a little-endian `u64` at `off`.
pub fn write_u64(s: &mut Vec<u8>, off: usize, v: u64)
    requires
        off + 8 <= old(s)@.len(),
    ensures
        final(s)@ == put64(old(s)@, off as int, v as int),
{
    let _len = s.len();
    write_u32(s, off, (v % 0x1_0000_0000) as u32);
    write_u32(s, off + 4, (v / 0x1_0000_0000) as u32);
}

/// Copies `n` bytes of `s` from `off`.
pub fn copy_bytes(s: &[u8], off: usize, n: usize) -> (r: Vec<u8>)
    requires
        off + n <= s@.len(),
    ensures
        r@ == s@.subrange(off as int, off + n),
{
    let len = s.len();
    let mut r: Vec<u8> = Vec::new();
    let mut i: usize = 0;
    while i < n
        invariant
            off + n <= s@.len(),
            len == s@.len(),
            i <= n,
            r@ == s@.subrange(off as int, off + i),
        decreases n - i,
    {
        r.push(s[off + i]);
        i = i + 1;
        assert(r@ =~= s@.subrange(off as int, off + i));
    }
    r
}

/// Reading back a little-endian `u16` gives what was written.
pub proof fn lemma_read_after_write16(s: Seq<u8>, off: int, v: int)
    requires
        0 <= off,
        off + 2 <= s.len(),
        0 <= v < 0x1_0000,
    ensures
        le16(put16(s, off, v), off) == v,
        put16(s, off, v).len() == s.len(),
{
}

/// Reading back a little-endian `u32` gives what was written.
pub proof fn lemma_read_after_write32(s: Seq<u8>, off: int, v: int)
    requires
        0 <= off,
        off + 4 <= s.len(),
        0 <= v < 0x1_0000_0000,
    ensures
        le32(put32(s, off, v), off) == v,
        put32(s, off, v).len() == s.len(),
{
    lemma_read_after_write16(s, off, v % 0x1_0000);
    let s1 = put16(s, off, v % 0x1_0000);
    lemma_read_after_write16(s1, off + 2, v / 0x1_0000 % 0x1_0000);
}

} // verus!
