//! Little-endian and big-endian integer readers over byte buffers.
//!
//! The spec functions are the mathematical meaning of the stored bytes; the
//! exec readers are proved to return exactly those values.
use vstd::prelude::*;

verus! {

/// The unsigned 16-bit little-endian value stored at offset `i`.
pub open spec fn le16(s: Seq<u8>, i: int) -> int {
    s[i] as int + 0x100 * (s[i + 1] as int)
}

/// The unsigned 32-bit little-endian value stored at offset `i`.
pub open spec fn le32(s: Seq<u8>, i: int) -> int {
    le16(s, i) + 0x10000 * le16(s, i + 2)
}

/// The unsigned 64-bit little-endian value stored at offset `i`.
pub open spec fn le64(s: Seq<u8>, i: int) -> int {
    le32(s, i) + 0x100000000 * le32(s, i + 4)
}

/// The unsigned 16-bit big-endian value stored at offset `i`.
pub open spec fn be16(s: Seq<u8>, i: int) -> int {
    0x100 * (s[i] as int) + s[i + 1] as int
}

/// The signed 32-bit two's-complement reading of the unsigned value `u`.
pub open spec fn as_signed32(u: int) -> int {
    if u < 0x80000000 {
        u
    } else {
        u - 0x100000000
    }
}

/// The signed 64-bit two's-complement reading of the unsigned value `u`.
pub open spec fn as_signed64(u: int) -> int {
    if u < 0x8000000000000000 {
        u
    } else {
        u - 0x10000000000000000
    }
}

/// The sequence with every trailing space byte removed.
pub open spec fn trim_end(s: Seq<u8>) -> Seq<u8>
    decreases s.len(),
{
    if s.len() > 0 && s.last() == 32 {
        trim_end(s.drop_last())
    } else {
        s
    }
}

/// The sequence with every leading space byte removed.
pub open spec fn trim_start(s: Seq<u8>) -> Seq<u8>
    decreases s.len(),
{
    if s.len() > 0 && s.first() == 32 {
        trim_start(s.drop_first())
    } else {
        s
    }
}

/// The sequence with surrounding space bytes removed.
pub open spec fn trim_both(s: Seq<u8>) -> Seq<u8> {
    trim_start(trim_end(s))
}

/// Whether every byte of `s` is an ASCII space.
pub open spec fn all_spaces(s: Seq<u8>) -> bool {
    forall|i: int| 0 <= i < s.len() ==> s[i] == 32
}

/// Returns the subslice of `s` without its trailing spaces.
pub fn trimmed_end<'a>(s: &'a [u8]) -> (r: &'a [u8])
    ensures
        r@ == trim_end(s@),
{
    let mut j: usize = s.len();
    proof {
        assert(s@.take(j as int) =~= s@);
    }
    while j > 0 && s[j - 1] == 32
        invariant
            j <= s@.len(),
            trim_end(s@) == trim_end(s@.take(j as int)),
        decreases j,
    {
        proof {
            assert(s@.take(j as int).last() == 32);
            assert(s@.take(j as int).drop_last() =~= s@.take(j as int - 1));
        }
        j = j - 1;
    }
    proof {
        if j > 0 {
            assert(s@.take(j as int).last() == s@[j as int - 1]);
        }
        assert(trim_end(s@.take(j as int)) == s@.take(j as int));
    }
    &s[0..j]
}

/// Returns the subslice of `s` without its leading spaces.
pub fn trimmed_start<'a>(s: &'a [u8]) -> (r: &'a [u8])
    ensures
        r@ == trim_start(s@),
{
    let n = s.len();
    let mut i: usize = 0;
    proof {
        assert(s@.skip(0) =~= s@);
    }
    while i < n && s[i] == 32
        invariant
            i <= n,
            n == s@.len(),
            trim_start(s@) == trim_start(s@.skip(i as int)),
        decreases n - i,
    {
        proof {
            assert(s@.skip(i as int).first() == s@[i as int]);
            assert(s@.skip(i as int).drop_first() =~= s@.skip(i as int + 1));
        }
        i = i + 1;
    }
    proof {
        if i < n {
            assert(s@.skip(i as int).first() == s@[i as int]);
        }
        assert(trim_start(s@.skip(i as int)) == s@.skip(i as int));
        assert(s@.subrange(i as int, n as int) =~= s@.skip(i as int));
    }
    &s[i..n]
}

pub fn read_le16(s: &[u8], i: usize) -> (r: u16)
    requires
        i + 2 <= s@.len(),
    ensures
        r == le16(s@, i as int),
{
    s[i] as u16 + 0x100 * (s[i + 1] as u16)
}

pub fn read_be16(s: &[u8], i: usize) -> (r: u16)
    requires
        i + 2 <= s@.len(),
    ensures
        r == be16(s@, i as int),
{
    0x100 * (s[i] as u16) + s[i + 1] as u16
}

pub fn read_le32(s: &[u8], i: usize) -> (r: u32)
    requires
        i + 4 <= s@.len(),
    ensures
        r == le32(s@, i as int),
{
    let n = s.len();
    read_le16(s, i) as u32 + 0x10000 * (read_le16(s, i + 2) as u32)
}

pub fn read_le64(s: &[u8], i: usize) -> (r: u64)
    requires
        i + 8 <= s@.len(),
    ensures
        r == le64(s@, i as int),
{
    let n = s.len();
    read_le32(s, i) as u64 + 0x100000000 * (read_le32(s, i + 4) as u64)
}

/// Reads a signed 32-bit little-endian value.
pub fn read_i32_le(s: &[u8], i: usize) -> (r: i32)
    requires
        i + 4 <= s@.len(),
    ensures
        r == as_signed32(le32(s@, i as int)),
{
    let u = read_le32(s, i);
    if u < 0x80000000 {
        u as i32
    } else {
        let v: i64 = u as i64 - 0x100000000;
        v as i32
    }
}

/// Reads a signed 64-bit little-endian value.
pub fn read_i64_le(s: &[u8], i: usize) -> (r: i64)
    requires
        i + 8 <= s@.len(),
    ensures
        r == as_signed64(le64(s@, i as int)),
{
    let u = read_le64(s, i);
    if u < 0x8000000000000000 {
        u as i64
    } else {
        let low: u64 = u - 0x8000000000000000;
        let v: i64 = low as i64 - 0x7FFFFFFFFFFFFFFF - 1;
        v
    }
}

} // verus!
