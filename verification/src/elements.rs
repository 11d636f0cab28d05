//! The small values that headers and submessages are made of.
use vstd::prelude::*;

use crate::wire;

verus! {

/// Why a packet could not be read.
#[derive(Clone, Copy, Debug, PartialEq, Eq, Structural)]
pub enum ReadError {
    /// Octets that the format requires are not there.
    UnexpectedEnd,
    /// The packet does not start with the protocol's name.
    NotRtps,
    /// The inline parameters would start inside the fields before them.
    InlineQosOverlap,
    /// A set of numbers claims to be wider than the format allows.
    NumberSetTooWide,
}

/// A version of the protocol.
#[derive(Clone, Copy, Debug, PartialEq, Eq, Structural)]
pub struct ProtocolVersion {
    pub major: u8,
    pub minor: u8,
}

impl ProtocolVersion {
    /// The version that this library speaks.
    #[verifier::allow_in_spec]
    pub fn this_implementation() -> ProtocolVersion
        returns
            (ProtocolVersion { major: 2, minor: 3 }),
    {
        ProtocolVersion { major: 2, minor: 3 }
    }
}

/// The vendor of a protocol implementation.
#[derive(Clone, Copy, Debug, PartialEq, Eq)]
pub struct VendorId {
    pub vendor_id: [u8; 2],
}

impl VendorId {
    #[verifier::allow_in_spec]
    pub fn vendor_unknown() -> VendorId
        returns
            (VendorId { vendor_id: [0u8, 0u8] }),
    {
        VendorId { vendor_id: [0, 0] }
    }

    /// The vendor that this library names in the messages it writes.
    #[verifier::allow_in_spec]
    pub fn this_implementation() -> VendorId
        returns
            (VendorId { vendor_id: [0x01u8, 0x12u8] }),
    {
        VendorId { vendor_id: [0x01, 0x12] }
    }
}

/// A point in time: seconds, and fractions of a second in units of 2^-32.
#[derive(Clone, Copy, Debug, PartialEq, Eq, Structural)]
pub struct Timestamp {
    pub seconds: u32,
    pub fraction: u32,
}

impl Timestamp {
    /// The value that stands for no time at all.
    #[verifier::allow_in_spec]
    pub fn invalid() -> Timestamp
        returns
            (Timestamp { seconds: 0xffff_ffff, fraction: 0xffff_ffff }),
    {
        Timestamp { seconds: 0xffff_ffff, fraction: 0xffff_ffff }
    }
}

/// The number that a writer gives to one of its changes.
#[derive(Clone, Copy, Debug, PartialEq, Eq, Structural)]
pub struct SequenceNumber {
    pub value: i64,
}

impl SequenceNumber {
    pub fn new(value: i64) -> (r: SequenceNumber)
        ensures
            r.value == value,
    {
        SequenceNumber { value }
    }
}

/// The sequence number whose eight octets start at `i`.
pub open spec fn sequence_number_at(s: Seq<u8>, i: int, little: bool) -> SequenceNumber {
    SequenceNumber { value: wire::i64_at(s, i, little) }
}

/// Reads [`sequence_number_at`].
pub fn read_sequence_number(s: &[u8], i: usize, little: bool) -> (r: SequenceNumber)
    requires
        i + 8 <= s.len(),
    ensures
        r == sequence_number_at(s@, i as int, little),
{
    SequenceNumber { value: wire::read_i64(s, i, little) }
}

/// Four octets from `i` on.
pub open spec fn octets4_at(s: Seq<u8>, i: int) -> [u8; 4] {
    [s[i], s[i + 1], s[i + 2], s[i + 3]]
}

/// Sixteen octets from `i` on.
pub open spec fn octets16_at(s: Seq<u8>, i: int) -> [u8; 16] {
    [
        s[i],
        s[i + 1],
        s[i + 2],
        s[i + 3],
        s[i + 4],
        s[i + 5],
        s[i + 6],
        s[i + 7],
        s[i + 8],
        s[i + 9],
        s[i + 10],
        s[i + 11],
        s[i + 12],
        s[i + 13],
        s[i + 14],
        s[i + 15],
    ]
}

fn read_octets16(s: &[u8], i: usize) -> (r: [u8; 16])
    requires
        i + 16 <= s.len(),
    ensures
        r == octets16_at(s@, i as int),
{
    [
        s[i],
        s[i + 1],
        s[i + 2],
        s[i + 3],
        s[i + 4],
        s[i + 5],
        s[i + 6],
        s[i + 7],
        s[i + 8],
        s[i + 9],
        s[i + 10],
        s[i + 11],
        s[i + 12],
        s[i + 13],
        s[i + 14],
        s[i + 15],
    ]
}

/// An address that messages can be sent to.
#[allow(inconsistent_fields)]
#[derive(Clone, Copy, Debug, PartialEq, Eq)]
pub enum Locator {
    Invalid,
    Reserved,
    UdpV4 { address: [u8; 4], port: u32 },
    UdpV6 { address: [u8; 16], port: u32 },
    Other { kind: i32, port: u32, address: [u8; 16] },
}

/// The locator whose twenty-four octets start at `i`: kind, port and sixteen
/// octets of address, of which an IPv4 address is the last four.
pub open spec fn locator_at(s: Seq<u8>, i: int, little: bool) -> Locator {
    let kind = wire::i32_at(s, i, little);
    let port = wire::u32_at(s, i + 4, little);
    if kind == -1 {
        Locator::Invalid
    } else if kind == 0 {
        Locator::Reserved
    } else if kind == 1 {
        Locator::UdpV4 { address: octets4_at(s, i + 20), port }
    } else if kind == 2 {
        Locator::UdpV6 { address: octets16_at(s, i + 8), port }
    } else {
        Locator::Other { kind, port, address: octets16_at(s, i + 8) }
    }
}

/// Reads [`locator_at`].
pub fn read_locator(s: &[u8], i: usize, little: bool) -> (r: Locator)
    requires
        i + 24 <= s.len(),
    ensures
        r == locator_at(s@, i as int, little),
{
    let kind: i32 = wire::read_i32(s, i, little);
    let port: u32 = wire::read_u32(s, i + 4, little);
    if kind == -1 {
        Locator::Invalid
    } else if kind == 0 {
        Locator::Reserved
    } else if kind == 1 {
        Locator::UdpV4 { address: [s[i + 20], s[i + 21], s[i + 22], s[i + 23]], port }
    } else if kind == 2 {
        Locator::UdpV6 { address: read_octets16(s, i + 8), port }
    } else {
        Locator::Other { kind, port, address: read_octets16(s, i + 8) }
    }
}

/// How many octets a list of `count` locators takes, its length included.
pub open spec fn locator_list_size(count: int) -> int {
    4 + 24 * count
}

/// The locator list that starts at `i`: a count, then as many locators.
pub open spec fn locator_list_at(s: Seq<u8>, i: int, little: bool) -> Result<
    Seq<Locator>,
    ReadError,
> {
    if i + 4 > s.len() || i + locator_list_size(wire::u32_at(s, i, little) as int) > s.len() {
        Err(ReadError::UnexpectedEnd)
    } else {
        Ok(
            Seq::new(
                wire::u32_at(s, i, little) as nat,
                |k: int| locator_at(s, i + locator_list_size(k), little),
            ),
        )
    }
}

/// Reads [`locator_list_at`].
pub fn read_locator_list(s: &[u8], i: usize, little: bool) -> (r: Result<Vec<Locator>, ReadError>)
    requires
        i <= s.len(),
    ensures
        match r {
            Ok(v) => locator_list_at(s@, i as int, little) == Ok::<Seq<Locator>, ReadError>(v@),
            Err(e) => locator_list_at(s@, i as int, little) == Err::<Seq<Locator>, ReadError>(e),
        },
{
    if s.len() - i < 4 {
        return Err(ReadError::UnexpectedEnd);
    }
    let count: u32 = wire::read_u32(s, i, little);
    let room: usize = (s.len() - i - 4) / 24;
    if count as u64 > room as u64 {
        return Err(ReadError::UnexpectedEnd);
    }
    let mut v: Vec<Locator> = Vec::new();
    let mut k: u32 = 0;
    while k < count
        invariant
            k <= count,
            i + locator_list_size(count as int) <= s.len(),
            v@.len() == k,
            forall|j: int|
                0 <= j < k ==> v@[j] == #[trigger] locator_at(
                    s@,
                    i + locator_list_size(j),
                    little,
                ),
        decreases count - k,
    {
        v.push(read_locator(s, i + 4 + 24 * (k as usize), little));
        k = k + 1;
    }
    assert(v@ =~= locator_list_at(s@, i as int, little)->Ok_0);
    Ok(v)
}

/// How many octets the bitmap of `num_bits` bits takes.
pub open spec fn bitmap_size(num_bits: u32) -> int {
    4 * ((num_bits + 31) / 32)
}

/// Word `w` of the bitmap of `num_bits` bits that starts at `i`, zero where
/// the bitmap has no such word.
pub open spec fn bitmap_word(s: Seq<u8>, i: int, num_bits: u32, little: bool, w: int) -> u32 {
    if 32 * w < num_bits {
        wire::u32_at(s, i + 4 * w, little)
    } else {
        0
    }
}

/// The bitmap of `num_bits` bits, 256 at most, that starts at `i`.
pub open spec fn bitmap_at(s: Seq<u8>, i: int, num_bits: u32, little: bool) -> [u32; 8] {
    [
        bitmap_word(s, i, num_bits, little, 0),
        bitmap_word(s, i, num_bits, little, 1),
        bitmap_word(s, i, num_bits, little, 2),
        bitmap_word(s, i, num_bits, little, 3),
        bitmap_word(s, i, num_bits, little, 4),
        bitmap_word(s, i, num_bits, little, 5),
        bitmap_word(s, i, num_bits, little, 6),
        bitmap_word(s, i, num_bits, little, 7),
    ]
}

fn read_bitmap_word(s: &[u8], i: usize, num_bits: u32, little: bool, w: u32) -> (r: u32)
    requires
        w < 8,
        i + bitmap_size(num_bits) <= s.len(),
    ensures
        r == bitmap_word(s@, i as int, num_bits, little, w as int),
{
    if 32 * w < num_bits {
        wire::read_u32(s, i + 4 * (w as usize), little)
    } else {
        0
    }
}

fn read_bitmap(s: &[u8], i: usize, num_bits: u32, little: bool) -> (r: [u32; 8])
    requires
        i + bitmap_size(num_bits) <= s.len(),
    ensures
        r == bitmap_at(s@, i as int, num_bits, little),
{
    [
        read_bitmap_word(s, i, num_bits, little, 0),
        read_bitmap_word(s, i, num_bits, little, 1),
        read_bitmap_word(s, i, num_bits, little, 2),
        read_bitmap_word(s, i, num_bits, little, 3),
        read_bitmap_word(s, i, num_bits, little, 4),
        read_bitmap_word(s, i, num_bits, little, 5),
        read_bitmap_word(s, i, num_bits, little, 6),
        read_bitmap_word(s, i, num_bits, little, 7),
    ]
}

/// A set of sequence numbers: bit `k` of the bitmap, counted from the top of
/// its first word, stands for `bitmap_base + k`.
#[derive(Clone, Copy, Debug, PartialEq, Eq)]
pub struct SequenceNumberSet {
    pub bitmap_base: SequenceNumber,
    pub num_bits: u32,
    pub bitmap: [u32; 8],
}

/// A set of fragment numbers, laid out as a [`SequenceNumberSet`] is.
#[derive(Clone, Copy, Debug, PartialEq, Eq)]
pub struct FragmentNumberSet {
    pub bitmap_base: u32,
    pub num_bits: u32,
    pub bitmap: [u32; 8],
}

/// Whether a set fits whose bit count stands at `i` and whose bitmap follows.
pub open spec fn number_set_fits(s: Seq<u8>, i: int, little: bool) -> Result<(), ReadError> {
    if i + 4 > s.len() {
        Err(ReadError::UnexpectedEnd)
    } else if wire::u32_at(s, i, little) > 256 {
        Err(ReadError::NumberSetTooWide)
    } else if i + 4 + bitmap_size(wire::u32_at(s, i, little)) > s.len() {
        Err(ReadError::UnexpectedEnd)
    } else {
        Ok(())
    }
}

fn number_set_bits(s: &[u8], i: usize, little: bool) -> (r: Result<u32, ReadError>)
    requires
        i <= s.len(),
    ensures
        match r {
            Ok(n) => number_set_fits(s@, i as int, little) is Ok && n == wire::u32_at(
                s@,
                i as int,
                little,
            ),
            Err(e) => number_set_fits(s@, i as int, little) == Err::<(), ReadError>(e),
        },
{
    if s.len() - i < 4 {
        return Err(ReadError::UnexpectedEnd);
    }
    let num_bits: u32 = wire::read_u32(s, i, little);
    if num_bits > 256 {
        return Err(ReadError::NumberSetTooWide);
    }
    let size: usize = 4 * ((num_bits as usize + 31) / 32);
    if s.len() - i - 4 < size {
        return Err(ReadError::UnexpectedEnd);
    }
    Ok(num_bits)
}

/// The set of sequence numbers that starts at `i`, and where it ends.
pub open spec fn sequence_number_set_at(s: Seq<u8>, i: int, little: bool) -> Result<
    (SequenceNumberSet, int),
    ReadError,
> {
    match number_set_fits(s, i + 8, little) {
        Err(e) => Err(e),
        Ok(_) => {
            let num_bits = wire::u32_at(s, i + 8, little);
            Ok(
                (
                    SequenceNumberSet {
                        bitmap_base: sequence_number_at(s, i, little),
                        num_bits,
                        bitmap: bitmap_at(s, i + 12, num_bits, little),
                    },
                    i + 12 + bitmap_size(num_bits),
                ),
            )
        },
    }
}

/// Reads [`sequence_number_set_at`].
pub fn read_sequence_number_set(s: &[u8], i: usize, little: bool) -> (r: Result<
    (SequenceNumberSet, usize),
    ReadError,
>)
    requires
        i + 8 <= s.len(),
    ensures
        match r {
            Ok((set, end)) => sequence_number_set_at(s@, i as int, little) == Ok::<
                (SequenceNumberSet, int),
                ReadError,
            >((set, end as int)) && end <= s.len(),
            Err(e) => sequence_number_set_at(s@, i as int, little) == Err::<
                (SequenceNumberSet, int),
                ReadError,
            >(e),
        },
{
    let num_bits: u32 = match number_set_bits(s, i + 8, little) {
        Ok(n) => n,
        Err(e) => return Err(e),
    };
    let set = SequenceNumberSet {
        bitmap_base: read_sequence_number(s, i, little),
        num_bits,
        bitmap: read_bitmap(s, i + 12, num_bits, little),
    };
    Ok((set, i + 12 + 4 * ((num_bits as usize + 31) / 32)))
}

/// The set of fragment numbers that starts at `i`, and where it ends.
pub open spec fn fragment_number_set_at(s: Seq<u8>, i: int, little: bool) -> Result<
    (FragmentNumberSet, int),
    ReadError,
> {
    match number_set_fits(s, i + 4, little) {
        Err(e) => Err(e),
        Ok(_) => {
            let num_bits = wire::u32_at(s, i + 4, little);
            Ok(
                (
                    FragmentNumberSet {
                        bitmap_base: wire::u32_at(s, i, little),
                        num_bits,
                        bitmap: bitmap_at(s, i + 8, num_bits, little),
                    },
                    i + 8 + bitmap_size(num_bits),
                ),
            )
        },
    }
}

/// Reads [`fragment_number_set_at`].
pub fn read_fragment_number_set(s: &[u8], i: usize, little: bool) -> (r: Result<
    (FragmentNumberSet, usize),
    ReadError,
>)
    requires
        i + 4 <= s.len(),
    ensures
        match r {
            Ok((set, end)) => fragment_number_set_at(s@, i as int, little) == Ok::<
                (FragmentNumberSet, int),
                ReadError,
            >((set, end as int)) && end <= s.len(),
            Err(e) => fragment_number_set_at(s@, i as int, little) == Err::<
                (FragmentNumberSet, int),
                ReadError,
            >(e),
        },
{
    let num_bits: u32 = match number_set_bits(s, i + 4, little) {
        Ok(n) => n,
        Err(e) => return Err(e),
    };
    let set = FragmentNumberSet {
        bitmap_base: wire::read_u32(s, i, little),
        num_bits,
        bitmap: read_bitmap(s, i + 8, num_bits, little),
    };
    Ok((set, i + 8 + 4 * ((num_bits as usize + 31) / 32)))
}

} // verus!
