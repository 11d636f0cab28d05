//! Fixed-width numbers inside an octet sequence, in either byte order.
use vstd::prelude::*;

verus! {

/// The 16-bit number whose two octets start at `i`.
pub open spec fn u16_at(s: Seq<u8>, i: int, little: bool) -> u16 {
    if little {
        (s[i] + 0x100 * s[i + 1]) as u16
    } else {
        (0x100 * s[i] + s[i + 1]) as u16
    }
}

/// The 32-bit number whose four octets start at `i`.
pub open spec fn u32_at(s: Seq<u8>, i: int, little: bool) -> u32 {
    if little {
        (s[i] + 0x100 * s[i + 1] + 0x1_0000 * s[i + 2] + 0x100_0000 * s[i + 3]) as u32
    } else {
        (0x100_0000 * s[i] + 0x1_0000 * s[i + 1] + 0x100 * s[i + 2] + s[i + 3]) as u32
    }
}

/// The two's complement 32-bit number whose four octets start at `i`.
pub open spec fn i32_at(s: Seq<u8>, i: int, little: bool) -> i32 {
    let n = u32_at(s, i, little);
    if n < 0x8000_0000 {
        n as i32
    } else {
        (n - 0x1_0000_0000) as i32
    }
}

/// The 64-bit number written as a signed high half followed by an unsigned
/// low half, each of four octets, starting at `i`.
pub open spec fn i64_at(s: Seq<u8>, i: int, little: bool) -> i64 {
    (0x1_0000_0000 * i32_at(s, i, little) + u32_at(s, i + 4, little)) as i64
}

/// Reads [`u16_at`].
pub fn read_u16(s: &[u8], i: usize, little: bool) -> (n: u16)
    requires
        i + 2 <= s.len(),
    ensures
        n == u16_at(s@, i as int, little),
{
    let a: u16 = s[i] as u16;
    let b: u16 = s[i + 1] as u16;
    if little {
        a + 0x100 * b
    } else {
        0x100 * a + b
    }
}

/// Reads [`u32_at`].
pub fn read_u32(s: &[u8], i: usize, little: bool) -> (n: u32)
    requires
        i + 4 <= s.len(),
    ensures
        n == u32_at(s@, i as int, little),
{
    let a: u32 = s[i] as u32;
    let b: u32 = s[i + 1] as u32;
    let c: u32 = s[i + 2] as u32;
    let d: u32 = s[i + 3] as u32;
    if little {
        a + 0x100 * b + 0x1_0000 * c + 0x100_0000 * d
    } else {
        0x100_0000 * a + 0x1_0000 * b + 0x100 * c + d
    }
}

/// Reads [`i32_at`].
pub fn read_i32(s: &[u8], i: usize, little: bool) -> (n: i32)
    requires
        i + 4 <= s.len(),
    ensures
        n == i32_at(s@, i as int, little),
{
    let n: u32 = read_u32(s, i, little);
    assert(n >= 0x8000_0000 ==> n as i32 == n - 0x1_0000_0000) by (bit_vector);
    n as i32
}

/// Reads [`i64_at`].
pub fn read_i64(s: &[u8], i: usize, little: bool) -> (n: i64)
    requires
        i + 8 <= s.len(),
    ensures
        n == i64_at(s@, i as int, little),
{
    let high: i64 = read_i32(s, i, little) as i64;
    let low: i64 = read_u32(s, i + 4, little) as i64;
    0x1_0000_0000 * high + low
}

} // verus!
