//! How values are written as octets. Nothing here is executed: it is what the
//! laws about reading are stated with.
use vstd::prelude::*;

use crate::elements::FragmentNumberSet;
use crate::elements::Locator;
use crate::elements::SequenceNumberSet;
use crate::guid::EntityId;
use crate::submessages::AckNack;
use crate::submessages::DataFragView;
use crate::submessages::DataView;
use crate::submessages::Gap;
use crate::submessages::Heartbeat;
use crate::submessages::HeartbeatFrag;
use crate::submessages::NackFrag;
use crate::submessages::SerializedPayloadView;
use crate::submessages::SubmessageFlags;

verus! {

/// A 16-bit number.
#[verifier::opaque]
pub open spec fn u16_octets(n: u16, little: bool) -> Seq<u8> {
    let high = (n / 0x100) as u8;
    let low = (n % 0x100) as u8;
    if little {
        seq![low, high]
    } else {
        seq![high, low]
    }
}

/// A 32-bit number.
#[verifier::opaque]
pub open spec fn u32_octets(n: u32, little: bool) -> Seq<u8> {
    let a = (n / 0x100_0000) as u8;
    let b = (n / 0x1_0000 % 0x100) as u8;
    let c = (n / 0x100 % 0x100) as u8;
    let d = (n % 0x100) as u8;
    if little {
        seq![d, c, b, a]
    } else {
        seq![a, b, c, d]
    }
}

/// A signed 32-bit number, in two's complement.
#[verifier::opaque]
pub open spec fn i32_octets(n: i32, little: bool) -> Seq<u8> {
    u32_octets(
        if n < 0 {
            (0x1_0000_0000 + n) as u32
        } else {
            n as u32
        },
        little,
    )
}

/// A signed 64-bit number: its upper half, then its lower half.
#[verifier::opaque]
pub open spec fn i64_octets(n: i64, little: bool) -> Seq<u8> {
    i32_octets((n as int / 0x1_0000_0000) as i32, little) + u32_octets(
        (n as int % 0x1_0000_0000) as u32,
        little,
    )
}

/// An entity identifier, which has no byte order: its first octet is on top.
pub open spec fn entity_id_octets(id: EntityId) -> Seq<u8> {
    u32_octets(id.value, false)
}

/// Whether the flags say that the numbers are little endian.
pub open spec fn is_little(flags: SubmessageFlags) -> bool {
    flags.bits & 0x01 == 0x01
}

/// The words of a bitmap that `num_bits` bits take.
#[verifier::opaque]
pub open spec fn bitmap_octets(bitmap: [u32; 8], num_bits: u32, little: bool) -> Seq<u8> {
    Seq::new(
        (4 * ((num_bits + 31) / 32)) as nat,
        |k: int| u32_octets(bitmap@[k / 4], little)[k % 4],
    )
}

/// Whether a bitmap has at most 256 bits, and nothing in the words after them.
pub open spec fn bitmap_fits(bitmap: [u32; 8], num_bits: u32) -> bool {
    &&& num_bits <= 256
    &&& forall|w: int| 0 <= w < 8 && 32 * w >= num_bits ==> #[trigger] bitmap@[w] == 0
}

/// A set of sequence numbers.
pub open spec fn sequence_number_set_octets(set: SequenceNumberSet, little: bool) -> Seq<u8> {
    i64_octets(set.bitmap_base.value, little) + u32_octets(set.num_bits, little) + bitmap_octets(
        set.bitmap,
        set.num_bits,
        little,
    )
}

/// A set of fragment numbers.
pub open spec fn fragment_number_set_octets(set: FragmentNumberSet, little: bool) -> Seq<u8> {
    u32_octets(set.bitmap_base, little) + u32_octets(set.num_bits, little) + bitmap_octets(
        set.bitmap,
        set.num_bits,
        little,
    )
}

/// A locator. Those of some kinds leave the port, or octets of the address,
/// unused: there stand those of `port` and `filler`.
#[verifier::opaque]
pub open spec fn locator_octets(
    locator: Locator,
    port: u32,
    filler: Seq<u8>,
    little: bool,
) -> Seq<u8> {
    match locator {
        Locator::Invalid => i32_octets((-1) as i32, little) + u32_octets(port, little) + filler,
        Locator::Reserved => i32_octets(0, little) + u32_octets(port, little) + filler,
        Locator::UdpV4 { address, port: p } => i32_octets(1, little) + u32_octets(p, little)
            + filler.take(12) + address@,
        Locator::UdpV6 { address, port: p } => i32_octets(2, little) + u32_octets(p, little)
            + address@,
        Locator::Other { kind, port: p, address } => i32_octets(kind, little) + u32_octets(
            p,
            little,
        ) + address@,
    }
}

/// Whether the locator is not one of a known kind in disguise.
pub open spec fn locator_is_proper(locator: Locator) -> bool {
    locator matches Locator::Other { kind, .. } ==> kind < -1 || kind > 2
}

/// A list of locators, with what fills their unused octets.
pub open spec fn locator_list_octets(
    locators: Seq<Locator>,
    ports: Seq<u32>,
    fillers: Seq<Seq<u8>>,
    little: bool,
) -> Seq<u8> {
    u32_octets(locators.len() as u32, little) + Seq::new(
        24 * locators.len(),
        |k: int| locator_octets(locators[k / 24], ports[k / 24], fillers[k / 24], little)[k % 24],
    )
}

/// Whether there are fillers for all of the locators, and not too many.
pub open spec fn locator_list_fits(
    locators: Seq<Locator>,
    ports: Seq<u32>,
    fillers: Seq<Seq<u8>>,
) -> bool {
    &&& locators.len() <= u32::MAX
    &&& ports.len() == locators.len()
    &&& fillers.len() == locators.len()
    &&& forall|k: int| 0 <= k < locators.len() ==> locator_is_proper(#[trigger] locators[k])
    &&& forall|k: int| 0 <= k < fillers.len() ==> (#[trigger] fillers[k]).len() == 16
}

/// HEARTBEAT.
pub open spec fn heartbeat_octets(h: Heartbeat, little: bool) -> Seq<u8> {
    entity_id_octets(h.reader_id) + entity_id_octets(h.writer_id) + i64_octets(
        h.first_sn.value,
        little,
    ) + i64_octets(h.last_sn.value, little) + i32_octets(h.count, little)
}

/// HEARTBEAT_FRAG.
pub open spec fn heartbeatfrag_octets(h: HeartbeatFrag, little: bool) -> Seq<u8> {
    entity_id_octets(h.reader_id) + entity_id_octets(h.writer_id) + i64_octets(
        h.writer_sn.value,
        little,
    ) + u32_octets(h.last_fragment_num, little) + i32_octets(h.count, little)
}

/// GAP.
pub open spec fn gap_octets(g: Gap, little: bool) -> Seq<u8> {
    entity_id_octets(g.reader_id) + entity_id_octets(g.writer_id) + i64_octets(
        g.gap_start.value,
        little,
    ) + sequence_number_set_octets(g.gap_list, little)
}

/// ACKNACK.
pub open spec fn acknack_octets(a: AckNack, little: bool) -> Seq<u8> {
    entity_id_octets(a.reader_id) + entity_id_octets(a.writer_id) + sequence_number_set_octets(
        a.reader_sn_state,
        little,
    ) + i32_octets(a.count, little)
}

/// NACK_FRAG.
pub open spec fn nackfrag_octets(n: NackFrag, little: bool) -> Seq<u8> {
    entity_id_octets(n.reader_id) + entity_id_octets(n.writer_id) + i64_octets(
        n.writer_sn.value,
        little,
    ) + fragment_number_set_octets(n.fragment_number_state, little) + i32_octets(n.count, little)
}

/// A parameter in a list of parameters.
pub struct Parameter {
    pub id: u16,
    pub value: Seq<u8>,
}

/// A list of parameters, with the one that ends it: its identifier is 1, and
/// nothing follows its length, whatever that says.
pub open spec fn parameter_list_octets(
    parameters: Seq<Parameter>,
    last_length: u16,
    little: bool,
) -> Seq<u8>
    decreases parameters.len(),
{
    if parameters.len() == 0 {
        u16_octets(1, little) + u16_octets(last_length, little)
    } else {
        u16_octets(parameters[0].id, little) + u16_octets(
            parameters[0].value.len() as u16,
            little,
        ) + parameters[0].value + parameter_list_octets(
            parameters.drop_first(),
            last_length,
            little,
        )
    }
}

/// Whether no parameter ends the list early, or is too long for its length.
pub open spec fn parameters_fit(parameters: Seq<Parameter>) -> bool {
    forall|k: int|
        0 <= k < parameters.len() ==> (#[trigger] parameters[k]).id != 1
            && parameters[k].value.len() <= u16::MAX
}

/// A payload: two octets that say how it is encoded, two of options, and the
/// value.
pub open spec fn payload_octets(payload: SerializedPayloadView) -> Seq<u8> {
    payload.representation_identifier@ + payload.representation_options@ + payload.value
}

/// The fields of DATA. There are two octets of further flags, and then how far
/// the inline parameters are away: the fields after that, and `skipped` more
/// octets that are not known here.
pub open spec fn data_fields_octets(
    d: DataView,
    further: Seq<u8>,
    skipped: Seq<u8>,
    little: bool,
) -> Seq<u8> {
    further + u16_octets((16 + skipped.len()) as u16, little) + entity_id_octets(d.reader_id)
        + entity_id_octets(d.writer_id) + i64_octets(d.writer_sn.value, little) + skipped
}

/// The fields of DATA_FRAG.
pub open spec fn datafrag_fields_octets(
    d: DataFragView,
    further: Seq<u8>,
    skipped: Seq<u8>,
    little: bool,
) -> Seq<u8> {
    further + u16_octets((28 + skipped.len()) as u16, little) + entity_id_octets(d.reader_id)
        + entity_id_octets(d.writer_id) + i64_octets(d.writer_sn.value, little) + u32_octets(
        d.fragment_starting_num,
        little,
    ) + u16_octets(d.fragments_in_submessage, little) + u16_octets(d.fragment_size, little)
        + u32_octets(d.data_size, little) + skipped
}

/// A submessage: what kind it is of, its flags, how long it is, and its
/// content.
pub open spec fn submessage_octets(
    kind: u8,
    flags: SubmessageFlags,
    content: Seq<u8>,
) -> Seq<u8> {
    seq![kind, flags.bits] + u16_octets(content.len() as u16, is_little(flags)) + content
}

pub broadcast proof fn lemma_u16_octets_len(n: u16, little: bool)
    ensures
        (#[trigger] u16_octets(n, little)).len() == 2,
{
    reveal(u16_octets);
}

pub broadcast proof fn lemma_u32_octets_len(n: u32, little: bool)
    ensures
        (#[trigger] u32_octets(n, little)).len() == 4,
{
    reveal(u32_octets);
}

pub broadcast proof fn lemma_i32_octets_len(n: i32, little: bool)
    ensures
        (#[trigger] i32_octets(n, little)).len() == 4,
{
    reveal(u32_octets);
    reveal(i32_octets);
}

pub broadcast proof fn lemma_i64_octets_len(n: i64, little: bool)
    ensures
        (#[trigger] i64_octets(n, little)).len() == 8,
{
    reveal(i64_octets);
    lemma_i32_octets_len((n as int / 0x1_0000_0000) as i32, little);
    lemma_u32_octets_len((n as int % 0x1_0000_0000) as u32, little);
}

pub broadcast proof fn lemma_bitmap_octets_len(bitmap: [u32; 8], num_bits: u32, little: bool)
    ensures
        (#[trigger] bitmap_octets(bitmap, num_bits, little)).len() == 4 * ((num_bits + 31) / 32),
{
    reveal(bitmap_octets);
}

/// How long what is written is.
pub broadcast group group_lengths {
    lemma_u16_octets_len,
    lemma_u32_octets_len,
    lemma_i32_octets_len,
    lemma_i64_octets_len,
    lemma_bitmap_octets_len,
}

} // verus!
