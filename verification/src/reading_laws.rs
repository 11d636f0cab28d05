//! What reading gives back of what was written, and which octets cannot be
//! read.
use vstd::prelude::*;

use crate::codec;
use crate::elements;
use crate::elements::FragmentNumberSet;
use crate::elements::Locator;
use crate::elements::ReadError;
use crate::elements::SequenceNumberSet;
use crate::elements::Timestamp;
use crate::encoding;
use crate::encoding::Parameter;
use crate::guid;
use crate::guid::EntityId;
use crate::guid::GuidPrefix;
use crate::header;
use crate::header::Header;
use crate::message;
use crate::model::MessageView;
use crate::packet;
use crate::packet::PacketOutcome;
use crate::submessages::AckNack;
use crate::submessages::DataFragView;
use crate::submessages::DataView;
use crate::submessages::EntitySubmessageView;
use crate::submessages::Gap;
use crate::submessages::Heartbeat;
use crate::submessages::HeartbeatFrag;
use crate::submessages::InfoDestination;
use crate::submessages::InfoReplyView;
use crate::submessages::InfoSource;
use crate::submessages::InfoTimestamp;
use crate::submessages::InterpreterSubmessageView;
use crate::submessages::NackFrag;
use crate::submessages::SerializedPayloadView;
use crate::submessages::SubmessageBodyView;
use crate::submessages::SubmessageFlags;
use crate::wire;

verus! {

/// A 16-bit number that stands at `i` is read there, in either byte order.
pub proof fn law_u16(s: Seq<u8>, i: int, n: u16, little: bool)
    requires
        0 <= i,
        i + 2 <= s.len(),
        s.subrange(i, i + 2) == encoding::u16_octets(n, little),
    ensures
        wire::u16_at(s, i, little) == n,
{
    broadcast use encoding::group_lengths;

    reveal(encoding::u16_octets);
    let part = s.subrange(i, i + 2);
    assert(part[0] == s[i] && part[1] == s[i + 1]);
    assert(n / 0x100 < 0x100);
}

/// A 32-bit number that stands at `i` is read there, in either byte order.
pub proof fn law_u32(s: Seq<u8>, i: int, n: u32, little: bool)
    requires
        0 <= i,
        i + 4 <= s.len(),
        s.subrange(i, i + 4) == encoding::u32_octets(n, little),
    ensures
        wire::u32_at(s, i, little) == n,
{
    broadcast use encoding::group_lengths;

    reveal(encoding::u32_octets);
    let part = s.subrange(i, i + 4);
    assert(part[0] == s[i] && part[1] == s[i + 1] && part[2] == s[i + 2] && part[3] == s[i + 3]);
    assert(n / 0x100_0000 < 0x100);
    assert(n == 0x100_0000 * (n / 0x100_0000) + 0x1_0000 * (n / 0x1_0000 % 0x100) + 0x100 * (n
        / 0x100 % 0x100) + n % 0x100);
}

/// A signed 32-bit number that stands at `i` is read there.
pub proof fn law_i32(s: Seq<u8>, i: int, n: i32, little: bool)
    requires
        0 <= i,
        i + 4 <= s.len(),
        s.subrange(i, i + 4) == encoding::i32_octets(n, little),
    ensures
        wire::i32_at(s, i, little) == n,
{
    broadcast use encoding::group_lengths;

    reveal(encoding::i32_octets);
    law_u32(
        s,
        i,
        if n < 0 {
            (0x1_0000_0000 + n) as u32
        } else {
            n as u32
        },
        little,
    );
}

/// A signed 64-bit number that stands at `i` is read there.
pub proof fn law_i64(s: Seq<u8>, i: int, n: i64, little: bool)
    requires
        0 <= i,
        i + 8 <= s.len(),
        s.subrange(i, i + 8) == encoding::i64_octets(n, little),
    ensures
        wire::i64_at(s, i, little) == n,
        elements::sequence_number_at(s, i, little).value == n,
{
    broadcast use encoding::group_lengths;

    reveal(encoding::i64_octets);
    let whole = s.subrange(i, i + 8);
    let high = (n as int / 0x1_0000_0000) as i32;
    let low = (n as int % 0x1_0000_0000) as u32;
    assert(s.subrange(i, i + 4) =~= whole.subrange(0, 4));
    assert(s.subrange(i + 4, i + 8) =~= whole.subrange(4, 8));
    assert(whole.subrange(0, 4) =~= encoding::i32_octets(high, little));
    assert(whole.subrange(4, 8) =~= encoding::u32_octets(low, little));
    law_i32(s, i, high, little);
    law_u32(s, i + 4, low, little);
}

/// An entity identifier that stands at `i` is read there.
pub proof fn law_entity_id(s: Seq<u8>, i: int, id: EntityId)
    requires
        0 <= i,
        i + 4 <= s.len(),
        s.subrange(i, i + 4) == encoding::entity_id_octets(id),
    ensures
        guid::entity_id_at(s, i) == id,
{
    broadcast use encoding::group_lengths;

    law_u32(s, i, id.value, false);
}

/// A prefix that stands at `i` is read there.
pub proof fn law_guid_prefix(s: Seq<u8>, i: int, prefix: GuidPrefix)
    requires
        0 <= i,
        i + 12 <= s.len(),
        s.subrange(i, i + 12) == prefix.bytes@,
    ensures
        guid::guid_prefix_at(s, i) == prefix,
{
    broadcast use encoding::group_lengths;

    let part = s.subrange(i, i + 12);
    assert forall|k: int| 0 <= k < 12 implies #[trigger] prefix.bytes@[k] == s[i + k] by {
        assert(part[k] == s[i + k]);
    }
    assert(guid::guid_prefix_at(s, i).bytes =~= prefix.bytes);
}

/// HEARTBEAT is read as it was written, whatever follows it. Less than all of
/// it cannot be read.
#[verifier::spinoff_prover]
#[verifier::rlimit(40)]
pub proof fn law_heartbeat(h: Heartbeat, little: bool, rest: Seq<u8>, n: int)
    ensures
        codec::heartbeat_of(encoding::heartbeat_octets(h, little) + rest, little) == Ok::<
            Heartbeat,
            ReadError,
        >(h),
        0 <= n < encoding::heartbeat_octets(h, little).len() ==> codec::heartbeat_of(
            encoding::heartbeat_octets(h, little).take(n),
            little,
        ) == Err::<Heartbeat, ReadError>(ReadError::UnexpectedEnd),
{
    broadcast use encoding::group_lengths;

    let c = encoding::heartbeat_octets(h, little) + rest;
    assert(c.subrange(0, 4) =~= encoding::entity_id_octets(h.reader_id));
    assert(c.subrange(4, 8) =~= encoding::entity_id_octets(h.writer_id));
    assert(c.subrange(8, 16) =~= encoding::i64_octets(h.first_sn.value, little));
    assert(c.subrange(16, 24) =~= encoding::i64_octets(h.last_sn.value, little));
    assert(c.subrange(24, 28) =~= encoding::i32_octets(h.count, little));
    law_entity_id(c, 0, h.reader_id);
    law_entity_id(c, 4, h.writer_id);
    law_i64(c, 8, h.first_sn.value, little);
    law_i64(c, 16, h.last_sn.value, little);
    law_i32(c, 24, h.count, little);
}

/// HEARTBEAT_FRAG is read as it was written, whatever follows it. Less than
/// all of it cannot be read.
pub proof fn law_heartbeatfrag(h: HeartbeatFrag, little: bool, rest: Seq<u8>, n: int)
    ensures
        codec::heartbeatfrag_of(encoding::heartbeatfrag_octets(h, little) + rest, little) == Ok::<
            HeartbeatFrag,
            ReadError,
        >(h),
        0 <= n < encoding::heartbeatfrag_octets(h, little).len() ==> codec::heartbeatfrag_of(
            encoding::heartbeatfrag_octets(h, little).take(n),
            little,
        ) == Err::<HeartbeatFrag, ReadError>(ReadError::UnexpectedEnd),
{
    broadcast use encoding::group_lengths;

    let c = encoding::heartbeatfrag_octets(h, little) + rest;
    assert(c.subrange(0, 4) =~= encoding::entity_id_octets(h.reader_id));
    assert(c.subrange(4, 8) =~= encoding::entity_id_octets(h.writer_id));
    assert(c.subrange(8, 16) =~= encoding::i64_octets(h.writer_sn.value, little));
    assert(c.subrange(16, 20) =~= encoding::u32_octets(h.last_fragment_num, little));
    assert(c.subrange(20, 24) =~= encoding::i32_octets(h.count, little));
    law_entity_id(c, 0, h.reader_id);
    law_entity_id(c, 4, h.writer_id);
    law_i64(c, 8, h.writer_sn.value, little);
    law_u32(c, 16, h.last_fragment_num, little);
    law_i32(c, 20, h.count, little);
}

/// The bitmap whose octets stand at `i` is read there.
proof fn lemma_bitmap(s: Seq<u8>, i: int, bitmap: [u32; 8], num_bits: u32, little: bool)
    requires
        0 <= i,
        encoding::bitmap_fits(bitmap, num_bits),
        i + encoding::bitmap_octets(bitmap, num_bits, little).len() <= s.len(),
        s.subrange(i, i + encoding::bitmap_octets(bitmap, num_bits, little).len())
            == encoding::bitmap_octets(bitmap, num_bits, little),
    ensures
        elements::bitmap_at(s, i, num_bits, little) == bitmap,
{
    broadcast use encoding::group_lengths;

    reveal(encoding::bitmap_octets);
    let part = encoding::bitmap_octets(bitmap, num_bits, little);
    assert forall|w: int| 0 <= w < 8 implies elements::bitmap_word(s, i, num_bits, little, w)
        == #[trigger] bitmap@[w] by {
        if 32 * w < num_bits {
            let word = encoding::u32_octets(bitmap@[w], little);
            assert forall|b: int| 0 <= b < 4 implies s[i + 4 * w + b] == #[trigger] word[b] by {
                assert(part[4 * w + b] == s[i + (4 * w + b)]);
                assert((4 * w + b) / 4 == w && (4 * w + b) % 4 == b);
            }
            assert(s.subrange(i + 4 * w, i + 4 * w + 4) =~= word);
            law_u32(s, i + 4 * w, bitmap@[w], little);
        }
    }
    let read = elements::bitmap_at(s, i, num_bits, little);
    assert(read@[0] == bitmap@[0] && read@[1] == bitmap@[1] && read@[2] == bitmap@[2] && read@[3]
        == bitmap@[3] && read@[4] == bitmap@[4] && read@[5] == bitmap@[5] && read@[6] == bitmap@[6]
        && read@[7] == bitmap@[7]);
    assert(read =~= bitmap);
}

/// A set of sequence numbers that stands at `i` is read there, up to its end.
/// It cannot be read if it does not end within `s`, nor if it claims to have
/// more than 256 bits.
pub proof fn law_sequence_number_set(s: Seq<u8>, i: int, set: SequenceNumberSet, little: bool)
    requires
        0 <= i,
    ensures
        ({
            let octets = encoding::sequence_number_set_octets(set, little);
            let read = elements::sequence_number_set_at(s, i, little);
            &&& encoding::bitmap_fits(set.bitmap, set.num_bits) && i + octets.len() <= s.len()
                && s.subrange(i, i + octets.len()) == octets ==> read == Ok::<
                (SequenceNumberSet, int),
                ReadError,
            >((set, i + octets.len()))
            &&& set.num_bits <= 256 && i <= s.len() < i + octets.len() && s.skip(i) == octets.take(
                s.len() - i,
            ) ==> read == Err::<(SequenceNumberSet, int), ReadError>(ReadError::UnexpectedEnd)
            &&& set.num_bits > 256 && i + 12 <= s.len() && s.subrange(i + 8, i + 12)
                == encoding::u32_octets(set.num_bits, little) ==> read == Err::<
                (SequenceNumberSet, int),
                ReadError,
            >(ReadError::NumberSetTooWide)
        }),
{
    broadcast use encoding::group_lengths;

    let octets = encoding::sequence_number_set_octets(set, little);
    if encoding::bitmap_fits(set.bitmap, set.num_bits) && i + octets.len() <= s.len() && s.subrange(
        i,
        i + octets.len(),
    ) == octets {
        let part = s.subrange(i, i + octets.len());
        assert(s.subrange(i, i + 8) =~= part.subrange(0, 8));
        assert(part.subrange(0, 8) =~= encoding::i64_octets(set.bitmap_base.value, little));
        assert(s.subrange(i + 8, i + 12) =~= part.subrange(8, 12));
        assert(part.subrange(8, 12) =~= encoding::u32_octets(set.num_bits, little));
        assert(s.subrange(i + 12, i + octets.len()) =~= part.subrange(12, octets.len() as int));
        assert(part.subrange(12, octets.len() as int) =~= encoding::bitmap_octets(
            set.bitmap,
            set.num_bits,
            little,
        ));
        law_i64(s, i, set.bitmap_base.value, little);
        law_u32(s, i + 8, set.num_bits, little);
        lemma_bitmap(s, i + 12, set.bitmap, set.num_bits, little);
    }
    if set.num_bits <= 256 && i <= s.len() < i + octets.len() && s.skip(i) == octets.take(
        s.len() - i,
    ) && i + 12 <= s.len() {
        let part = s.skip(i);
        assert(s.subrange(i + 8, i + 12) =~= part.subrange(8, 12));
        assert(part.subrange(8, 12) =~= encoding::u32_octets(set.num_bits, little));
        law_u32(s, i + 8, set.num_bits, little);
    }
    if i + 12 <= s.len() && s.subrange(i + 8, i + 12) == encoding::u32_octets(
        set.num_bits,
        little,
    ) {
        law_u32(s, i + 8, set.num_bits, little);
    }
}

/// A set of fragment numbers that stands at `i` is read there, up to its end.
/// It cannot be read if it does not end within `s`, nor if it claims to have
/// more than 256 bits.
pub proof fn law_fragment_number_set(s: Seq<u8>, i: int, set: FragmentNumberSet, little: bool)
    requires
        0 <= i,
    ensures
        ({
            let octets = encoding::fragment_number_set_octets(set, little);
            let read = elements::fragment_number_set_at(s, i, little);
            &&& encoding::bitmap_fits(set.bitmap, set.num_bits) && i + octets.len() <= s.len()
                && s.subrange(i, i + octets.len()) == octets ==> read == Ok::<
                (FragmentNumberSet, int),
                ReadError,
            >((set, i + octets.len()))
            &&& set.num_bits <= 256 && i <= s.len() < i + octets.len() && s.skip(i) == octets.take(
                s.len() - i,
            ) ==> read == Err::<(FragmentNumberSet, int), ReadError>(ReadError::UnexpectedEnd)
            &&& set.num_bits > 256 && i + 8 <= s.len() && s.subrange(i + 4, i + 8)
                == encoding::u32_octets(set.num_bits, little) ==> read == Err::<
                (FragmentNumberSet, int),
                ReadError,
            >(ReadError::NumberSetTooWide)
        }),
{
    broadcast use encoding::group_lengths;

    let octets = encoding::fragment_number_set_octets(set, little);
    if encoding::bitmap_fits(set.bitmap, set.num_bits) && i + octets.len() <= s.len() && s.subrange(
        i,
        i + octets.len(),
    ) == octets {
        let part = s.subrange(i, i + octets.len());
        assert(s.subrange(i, i + 4) =~= part.subrange(0, 4));
        assert(part.subrange(0, 4) =~= encoding::u32_octets(set.bitmap_base, little));
        assert(s.subrange(i + 4, i + 8) =~= part.subrange(4, 8));
        assert(part.subrange(4, 8) =~= encoding::u32_octets(set.num_bits, little));
        assert(s.subrange(i + 8, i + octets.len()) =~= part.subrange(8, octets.len() as int));
        assert(part.subrange(8, octets.len() as int) =~= encoding::bitmap_octets(
            set.bitmap,
            set.num_bits,
            little,
        ));
        law_u32(s, i, set.bitmap_base, little);
        law_u32(s, i + 4, set.num_bits, little);
        lemma_bitmap(s, i + 8, set.bitmap, set.num_bits, little);
    }
    if set.num_bits <= 256 && i <= s.len() < i + octets.len() && s.skip(i) == octets.take(
        s.len() - i,
    ) && i + 8 <= s.len() {
        let part = s.skip(i);
        assert(s.subrange(i + 4, i + 8) =~= part.subrange(4, 8));
        assert(part.subrange(4, 8) =~= encoding::u32_octets(set.num_bits, little));
        law_u32(s, i + 4, set.num_bits, little);
    }
    if i + 8 <= s.len() && s.subrange(i + 4, i + 8) == encoding::u32_octets(set.num_bits, little) {
        law_u32(s, i + 4, set.num_bits, little);
    }
}

/// GAP is read as it was written, whatever follows it. Less than all of it
/// cannot be read, nor one with too wide a set.
#[verifier::spinoff_prover]
#[verifier::rlimit(40)]
pub proof fn law_gap(g: Gap, little: bool, rest: Seq<u8>, n: int)
    ensures
        ({
            let octets = encoding::gap_octets(g, little);
            &&& encoding::bitmap_fits(g.gap_list.bitmap, g.gap_list.num_bits) ==> codec::gap_of(
                octets + rest,
                little,
            ) == Ok::<Gap, ReadError>(g)
            &&& g.gap_list.num_bits <= 256 && 0 <= n < octets.len() ==> codec::gap_of(
                octets.take(n),
                little,
            ) == Err::<Gap, ReadError>(ReadError::UnexpectedEnd)
            &&& g.gap_list.num_bits > 256 && 28 <= n <= (octets + rest).len() ==> codec::gap_of(
                (octets + rest).take(n),
                little,
            ) == Err::<Gap, ReadError>(ReadError::NumberSetTooWide)
        }),
{
    broadcast use encoding::group_lengths;

    let octets = encoding::gap_octets(g, little);
    let set = encoding::sequence_number_set_octets(g.gap_list, little);
    let c = octets + rest;
    assert(c.subrange(0, 4) =~= encoding::entity_id_octets(g.reader_id));
    assert(c.subrange(4, 8) =~= encoding::entity_id_octets(g.writer_id));
    assert(c.subrange(8, 16) =~= encoding::i64_octets(g.gap_start.value, little));
    assert(c.subrange(16, 16 + set.len() as int) =~= set);
    law_entity_id(c, 0, g.reader_id);
    law_entity_id(c, 4, g.writer_id);
    law_i64(c, 8, g.gap_start.value, little);
    law_sequence_number_set(c, 16, g.gap_list, little);
    if 16 <= n < octets.len() {
        let short = octets.take(n);
        assert(short.skip(16) =~= set.take(n - 16));
        law_sequence_number_set(short, 16, g.gap_list, little);
    }
    if 28 <= n <= c.len() {
        let short = c.take(n);
        assert(short.subrange(24, 28) =~= encoding::u32_octets(g.gap_list.num_bits, little));
        law_sequence_number_set(short, 16, g.gap_list, little);
    }
}

/// ACKNACK is read as it was written, whatever follows it.
pub proof fn law_acknack(a: AckNack, little: bool, rest: Seq<u8>)
    requires
        encoding::bitmap_fits(a.reader_sn_state.bitmap, a.reader_sn_state.num_bits),
    ensures
        codec::acknack_of(encoding::acknack_octets(a, little) + rest, little) == Ok::<
            AckNack,
            ReadError,
        >(a),
{
    broadcast use encoding::group_lengths;

    let octets = encoding::acknack_octets(a, little);
    let set = encoding::sequence_number_set_octets(a.reader_sn_state, little);
    let end = 8 + set.len() as int;
    let c = octets + rest;
    assert(c.subrange(0, 4) =~= encoding::entity_id_octets(a.reader_id));
    assert(c.subrange(4, 8) =~= encoding::entity_id_octets(a.writer_id));
    assert(c.subrange(8, end) =~= set);
    assert(c.subrange(end, end + 4) =~= encoding::i32_octets(a.count, little));
    law_entity_id(c, 0, a.reader_id);
    law_entity_id(c, 4, a.writer_id);
    law_sequence_number_set(c, 8, a.reader_sn_state, little);
    law_i32(c, end, a.count, little);
}

/// Less than all of ACKNACK cannot be read, nor one with too wide a set.
pub proof fn law_short_acknack(a: AckNack, little: bool, rest: Seq<u8>, n: int)
    ensures
        ({
            let set = a.reader_sn_state;
            let octets = encoding::acknack_octets(a, little);
            &&& encoding::bitmap_fits(set.bitmap, set.num_bits) && 0 <= n < octets.len()
                ==> codec::acknack_of(octets.take(n), little) == Err::<AckNack, ReadError>(
                ReadError::UnexpectedEnd,
            )
            &&& set.num_bits > 256 && 20 <= n <= (octets + rest).len() ==> codec::acknack_of(
                (octets + rest).take(n),
                little,
            ) == Err::<AckNack, ReadError>(ReadError::NumberSetTooWide)
        }),
{
    broadcast use encoding::group_lengths;

    let octets = encoding::acknack_octets(a, little);
    let set = encoding::sequence_number_set_octets(a.reader_sn_state, little);
    let end = 8 + set.len() as int;
    let c = octets + rest;
    if 8 <= n < octets.len() {
        let short = octets.take(n);
        if n < end {
            assert(short.skip(8) =~= set.take(n - 8));
        } else {
            assert(short.subrange(8, end) =~= set);
        }
        law_sequence_number_set(short, 8, a.reader_sn_state, little);
    }
    if 20 <= n <= c.len() {
        let short = c.take(n);
        assert(short.subrange(16, 20) =~= encoding::u32_octets(
            a.reader_sn_state.num_bits,
            little,
        ));
        law_sequence_number_set(short, 8, a.reader_sn_state, little);
    }
}

/// NACK_FRAG is read as it was written, whatever follows it.
pub proof fn law_nackfrag(a: NackFrag, little: bool, rest: Seq<u8>)
    requires
        encoding::bitmap_fits(a.fragment_number_state.bitmap, a.fragment_number_state.num_bits),
    ensures
        codec::nackfrag_of(encoding::nackfrag_octets(a, little) + rest, little) == Ok::<
            NackFrag,
            ReadError,
        >(a),
{
    broadcast use encoding::group_lengths;

    let octets = encoding::nackfrag_octets(a, little);
    let set = encoding::fragment_number_set_octets(a.fragment_number_state, little);
    let end = 16 + set.len() as int;
    let c = octets + rest;
    assert(c.subrange(0, 4) =~= encoding::entity_id_octets(a.reader_id));
    assert(c.subrange(4, 8) =~= encoding::entity_id_octets(a.writer_id));
    assert(c.subrange(8, 16) =~= encoding::i64_octets(a.writer_sn.value, little));
    assert(c.subrange(16, end) =~= set);
    assert(c.subrange(end, end + 4) =~= encoding::i32_octets(a.count, little));
    law_entity_id(c, 0, a.reader_id);
    law_entity_id(c, 4, a.writer_id);
    law_i64(c, 8, a.writer_sn.value, little);
    law_fragment_number_set(c, 16, a.fragment_number_state, little);
    law_i32(c, end, a.count, little);
}

/// Less than all of NACK_FRAG cannot be read, nor one with too wide a set.
pub proof fn law_short_nackfrag(a: NackFrag, little: bool, rest: Seq<u8>, n: int)
    ensures
        ({
            let set = a.fragment_number_state;
            let octets = encoding::nackfrag_octets(a, little);
            &&& encoding::bitmap_fits(set.bitmap, set.num_bits) && 0 <= n < octets.len()
                ==> codec::nackfrag_of(octets.take(n), little) == Err::<NackFrag, ReadError>(
                ReadError::UnexpectedEnd,
            )
            &&& set.num_bits > 256 && 24 <= n <= (octets + rest).len() ==> codec::nackfrag_of(
                (octets + rest).take(n),
                little,
            ) == Err::<NackFrag, ReadError>(ReadError::NumberSetTooWide)
        }),
{
    broadcast use encoding::group_lengths;

    let octets = encoding::nackfrag_octets(a, little);
    let set = encoding::fragment_number_set_octets(a.fragment_number_state, little);
    let end = 16 + set.len() as int;
    let c = octets + rest;
    if 16 <= n < octets.len() {
        let short = octets.take(n);
        if n < end {
            assert(short.skip(16) =~= set.take(n - 16));
        } else {
            assert(short.subrange(16, end) =~= set);
        }
        law_fragment_number_set(short, 16, a.fragment_number_state, little);
    }
    if 24 <= n <= c.len() {
        let short = c.take(n);
        assert(short.subrange(20, 24) =~= encoding::u32_octets(
            a.fragment_number_state.num_bits,
            little,
        ));
        law_fragment_number_set(short, 16, a.fragment_number_state, little);
    }
}

/// INFO_TS without the invalidate flag is its seconds and its fraction, whatever
/// follows them, and cannot be read where one of them is not whole. With the
/// flag it says that there is no time, whatever its content.
pub proof fn law_info_timestamp(
    t: Timestamp,
    flags: SubmessageFlags,
    rest: Seq<u8>,
    n: int,
)
    ensures
        ({
            let little = encoding::is_little(flags);
            let octets = encoding::u32_octets(t.seconds, little) + encoding::u32_octets(
                t.fraction,
                little,
            );
            if flags.bits & 0x02 == 0x02 {
                codec::info_timestamp_of(rest, flags) == Ok::<InfoTimestamp, ReadError>(
                    InfoTimestamp { timestamp: None },
                )
            } else {
                &&& codec::info_timestamp_of(octets + rest, flags) == Ok::<
                    InfoTimestamp,
                    ReadError,
                >(InfoTimestamp { timestamp: Some(t) })
                &&& 0 <= n < 8 ==> codec::info_timestamp_of(octets.take(n), flags) == Err::<
                    InfoTimestamp,
                    ReadError,
                >(ReadError::UnexpectedEnd)
            }
        }),
{
    broadcast use encoding::group_lengths;

    let little = encoding::is_little(flags);
    let c = encoding::u32_octets(t.seconds, little) + encoding::u32_octets(t.fraction, little)
        + rest;
    assert(c.subrange(0, 4) =~= encoding::u32_octets(t.seconds, little));
    assert(c.subrange(4, 8) =~= encoding::u32_octets(t.fraction, little));
    law_u32(c, 0, t.seconds, little);
    law_u32(c, 4, t.fraction, little);
}

/// INFO_SRC is four unused octets, the version, the vendor and the prefix of
/// the sender, whatever follows them, and cannot be read if shorter.
pub proof fn law_info_source(info: InfoSource, unused: Seq<u8>, rest: Seq<u8>, n: int)
    requires
        unused.len() == 4,
    ensures
        ({
            let octets = unused + seq![info.protocol_version.major, info.protocol_version.minor]
                + info.vendor_id.vendor_id@ + info.guid_prefix.bytes@;
            &&& codec::info_source_of(octets + rest) == Ok::<InfoSource, ReadError>(info)
            &&& 0 <= n < 20 ==> codec::info_source_of(octets.take(n)) == Err::<
                InfoSource,
                ReadError,
            >(ReadError::UnexpectedEnd)
        }),
{
    broadcast use encoding::group_lengths;

    let c = unused + seq![info.protocol_version.major, info.protocol_version.minor]
        + info.vendor_id.vendor_id@ + info.guid_prefix.bytes@ + rest;
    assert(c.subrange(8, 20) =~= info.guid_prefix.bytes@);
    law_guid_prefix(c, 8, info.guid_prefix);
    assert(codec::info_source_of(c)->Ok_0.vendor_id.vendor_id =~= info.vendor_id.vendor_id);
}

/// INFO_DST is the prefix of the participant that is meant, whatever follows
/// it, and cannot be read if shorter.
pub proof fn law_info_destination(info: InfoDestination, rest: Seq<u8>, n: int)
    ensures
        codec::info_destination_of(info.guid_prefix.bytes@ + rest) == Ok::<
            InfoDestination,
            ReadError,
        >(info),
        0 <= n < 12 ==> codec::info_destination_of(info.guid_prefix.bytes@.take(n)) == Err::<
            InfoDestination,
            ReadError,
        >(ReadError::UnexpectedEnd),
{
    broadcast use encoding::group_lengths;

    let c = info.guid_prefix.bytes@ + rest;
    assert(c.subrange(0, 12) =~= info.guid_prefix.bytes@);
    law_guid_prefix(c, 0, info.guid_prefix);
}

/// A locator of any kind that stands at `i` is read there.
pub proof fn law_locator(
    s: Seq<u8>,
    i: int,
    locator: Locator,
    port: u32,
    filler: Seq<u8>,
    little: bool,
)
    requires
        0 <= i,
        i + 24 <= s.len(),
        filler.len() == 16,
        encoding::locator_is_proper(locator),
        s.subrange(i, i + 24) == encoding::locator_octets(locator, port, filler, little),
    ensures
        elements::locator_at(s, i, little) == locator,
{
    broadcast use encoding::group_lengths;

    reveal(encoding::locator_octets);
    let part = s.subrange(i, i + 24);
    assert(forall|k: int| 0 <= k < 24 ==> #[trigger] part[k] == s[i + k]);
    assert(s.subrange(i, i + 4) =~= part.subrange(0, 4));
    assert(s.subrange(i + 4, i + 8) =~= part.subrange(4, 8));
    match locator {
        Locator::Invalid => {
            assert(part.subrange(0, 4) =~= encoding::i32_octets((-1) as i32, little));
            law_i32(s, i, (-1) as i32, little);
        },
        Locator::Reserved => {
            assert(part.subrange(0, 4) =~= encoding::i32_octets(0, little));
            law_i32(s, i, 0, little);
        },
        Locator::UdpV4 { address, port: p } => {
            assert(part.subrange(0, 4) =~= encoding::i32_octets(1, little));
            assert(part.subrange(4, 8) =~= encoding::u32_octets(p, little));
            law_i32(s, i, 1, little);
            law_u32(s, i + 4, p, little);
            let read = elements::octets4_at(s, i + 20);
            assert forall|k: int| 0 <= k < 4 implies read@[k] == #[trigger] address@[k] by {
                assert(part[20 + k] == address@[k]);
            }
            assert(read =~= address);
        },
        Locator::UdpV6 { address, port: p } => {
            assert(part.subrange(0, 4) =~= encoding::i32_octets(2, little));
            assert(part.subrange(4, 8) =~= encoding::u32_octets(p, little));
            law_i32(s, i, 2, little);
            law_u32(s, i + 4, p, little);
            assert forall|k: int| 0 <= k < 16 implies s[i + 8 + k] == #[trigger] address@[k] by {
                assert(part[8 + k] == address@[k]);
            }
            lemma_octets16(s, i + 8, address);
        },
        Locator::Other { kind, port: p, address } => {
            assert(part.subrange(0, 4) =~= encoding::i32_octets(kind, little));
            assert(part.subrange(4, 8) =~= encoding::u32_octets(p, little));
            law_i32(s, i, kind, little);
            law_u32(s, i + 4, p, little);
            assert forall|k: int| 0 <= k < 16 implies s[i + 8 + k] == #[trigger] address@[k] by {
                assert(part[8 + k] == address@[k]);
            }
            lemma_octets16(s, i + 8, address);
        },
    }
}

proof fn lemma_octets16(s: Seq<u8>, i: int, octets: [u8; 16])
    requires
        0 <= i,
        i + 16 <= s.len(),
        forall|k: int| 0 <= k < 16 ==> s[i + k] == #[trigger] octets@[k],
    ensures
        elements::octets16_at(s, i) == octets,
{
    broadcast use encoding::group_lengths;

    let read = elements::octets16_at(s, i);
    assert forall|k: int| 0 <= k < 16 implies read@[k] == #[trigger] octets@[k] by {
        assert(s[i + k] == octets@[k]);
    }
    assert(read =~= octets);
}

/// A list of locators that stands at `i` is read there, and cannot be read if
/// it does not end within `s`.
pub proof fn law_locator_list(
    s: Seq<u8>,
    i: int,
    locators: Seq<Locator>,
    ports: Seq<u32>,
    fillers: Seq<Seq<u8>>,
    little: bool,
)
    requires
        0 <= i,
        encoding::locator_list_fits(locators, ports, fillers),
    ensures
        ({
            let octets = encoding::locator_list_octets(locators, ports, fillers, little);
            let read = elements::locator_list_at(s, i, little);
            &&& i + octets.len() <= s.len() && s.subrange(i, i + octets.len()) == octets ==> read
                == Ok::<Seq<Locator>, ReadError>(locators)
            &&& i <= s.len() < i + octets.len() && s.skip(i) == octets.take(s.len() - i) ==> read
                == Err::<Seq<Locator>, ReadError>(ReadError::UnexpectedEnd)
        }),
{
    broadcast use encoding::group_lengths;

    reveal(encoding::locator_octets);
    let octets = encoding::locator_list_octets(locators, ports, fillers, little);
    let count = locators.len() as u32;
    if i + octets.len() <= s.len() && s.subrange(i, i + octets.len()) == octets {
        let part = s.subrange(i, i + octets.len());
        assert(s.subrange(i, i + 4) =~= part.subrange(0, 4));
        assert(part.subrange(0, 4) =~= encoding::u32_octets(count, little));
        law_u32(s, i, count, little);
        let read = elements::locator_list_at(s, i, little)->Ok_0;
        assert forall|k: int| 0 <= k < locators.len() implies read[k] == locators[k] by {
            let one = encoding::locator_octets(locators[k], ports[k], fillers[k], little);
            assert(encoding::locator_is_proper(locators[k]));
            assert(fillers[k].len() == 16);
            assert(one.len() == 24);
            let at = i + 4 + 24 * k;
            assert forall|b: int| 0 <= b < 24 implies s[at + b] == #[trigger] one[b] by {
                assert(part[4 + (24 * k + b)] == s[i + (4 + (24 * k + b))]);
                assert((24 * k + b) / 24 == k && (24 * k + b) % 24 == b);
                assert(octets[4 + (24 * k + b)] == one[b]);
            }
            assert(s.subrange(at, at + 24) =~= one);
            law_locator(s, at, locators[k], ports[k], fillers[k], little);
        }
        assert(read =~= locators);
    }
    if i + 4 <= s.len() < i + octets.len() && s.skip(i) == octets.take(s.len() - i) {
        let part = s.skip(i);
        assert(s.subrange(i, i + 4) =~= part.subrange(0, 4));
        assert(part.subrange(0, 4) =~= encoding::u32_octets(count, little));
        law_u32(s, i, count, little);
    }
}

/// INFO_REPLY is its list of unicast locators and, if the flags announce it,
/// its list of multicast locators, whatever follows them. It cannot be read if
/// a list is not whole.
pub proof fn law_info_reply(
    unicast: Seq<Locator>,
    unicast_ports: Seq<u32>,
    unicast_fillers: Seq<Seq<u8>>,
    multicast: Seq<Locator>,
    multicast_ports: Seq<u32>,
    multicast_fillers: Seq<Seq<u8>>,
    flags: SubmessageFlags,
    rest: Seq<u8>,
    n: int,
)
    requires
        encoding::locator_list_fits(unicast, unicast_ports, unicast_fillers),
        encoding::locator_list_fits(multicast, multicast_ports, multicast_fillers),
    ensures
        ({
            let little = encoding::is_little(flags);
            let first = encoding::locator_list_octets(
                unicast,
                unicast_ports,
                unicast_fillers,
                little,
            );
            let second = encoding::locator_list_octets(
                multicast,
                multicast_ports,
                multicast_fillers,
                little,
            );
            if flags.bits & 0x02 == 0x02 {
                &&& codec::info_reply_of(first + second + rest, flags) == Ok::<
                    InfoReplyView,
                    ReadError,
                >(
                    InfoReplyView {
                        unicast_locator_list: unicast,
                        multicast_locator_list: Some(multicast),
                    },
                )
                &&& 0 <= n < (first + second).len() ==> codec::info_reply_of(
                    (first + second).take(n),
                    flags,
                ) == Err::<InfoReplyView, ReadError>(ReadError::UnexpectedEnd)
            } else {
                &&& codec::info_reply_of(first + rest, flags) == Ok::<InfoReplyView, ReadError>(
                    InfoReplyView { unicast_locator_list: unicast, multicast_locator_list: None },
                )
                &&& 0 <= n < first.len() ==> codec::info_reply_of(first.take(n), flags) == Err::<
                    InfoReplyView,
                    ReadError,
                >(ReadError::UnexpectedEnd)
            }
        }),
{
    broadcast use encoding::group_lengths;

    let little = encoding::is_little(flags);
    let first = encoding::locator_list_octets(unicast, unicast_ports, unicast_fillers, little);
    let second = encoding::locator_list_octets(
        multicast,
        multicast_ports,
        multicast_fillers,
        little,
    );
    let one = first + rest;
    assert(one.subrange(0, first.len() as int) =~= first);
    law_locator_list(one, 0, unicast, unicast_ports, unicast_fillers, little);
    let both = first + second + rest;
    assert(both.subrange(0, first.len() as int) =~= first);
    assert(both.subrange(first.len() as int, (first.len() + second.len()) as int) =~= second);
    law_locator_list(both, 0, unicast, unicast_ports, unicast_fillers, little);
    law_locator_list(
        both,
        first.len() as int,
        multicast,
        multicast_ports,
        multicast_fillers,
        little,
    );
    if 0 <= n < first.len() {
        assert(first.take(n).skip(0) =~= first.take(n));
        assert((first + second).take(n) =~= first.take(n));
        law_locator_list(first.take(n), 0, unicast, unicast_ports, unicast_fillers, little);
    } else if first.len() <= n < (first + second).len() {
        let short = (first + second).take(n);
        assert(short.subrange(0, first.len() as int) =~= first);
        assert(short.skip(first.len() as int) =~= second.take(n - first.len()));
        law_locator_list(short, 0, unicast, unicast_ports, unicast_fillers, little);
        law_locator_list(
            short,
            first.len() as int,
            multicast,
            multicast_ports,
            multicast_fillers,
            little,
        );
    }
}

/// A list of parameters that stands at `i` ends where it was written to end.
/// If it does not end within `c`, there is no end.
pub proof fn law_parameter_list(
    c: Seq<u8>,
    i: int,
    parameters: Seq<Parameter>,
    last_length: u16,
    little: bool,
)
    requires
        0 <= i <= c.len(),
        encoding::parameters_fit(parameters),
    ensures
        ({
            let octets = encoding::parameter_list_octets(parameters, last_length, little);
            let end = codec::parameter_list_end(c, i, little);
            &&& i + octets.len() <= c.len() && c.subrange(i, i + octets.len()) == octets ==> end
                == Ok::<int, ReadError>(i + octets.len())
            &&& c.len() < i + octets.len() && c.skip(i) == octets.take(c.len() - i) ==> end
                == Err::<int, ReadError>(ReadError::UnexpectedEnd)
        }),
    decreases parameters.len(),
{
    broadcast use encoding::group_lengths;

    let octets = encoding::parameter_list_octets(parameters, last_length, little);
    let whole = i + octets.len() <= c.len() && c.subrange(i, i + octets.len()) == octets;
    let short = c.len() < i + octets.len() && c.skip(i) == octets.take(c.len() - i);
    if (whole || short) && i + 4 <= c.len() {
        let part = if whole {
            c.subrange(i, i + octets.len())
        } else {
            c.skip(i)
        };
        assert(c.subrange(i, i + 2) =~= part.subrange(0, 2));
        assert(c.subrange(i + 2, i + 4) =~= part.subrange(2, 4));
        assert(part.subrange(0, 2) =~= octets.subrange(0, 2));
        assert(part.subrange(2, 4) =~= octets.subrange(2, 4));
        if parameters.len() == 0 {
            assert(octets.subrange(0, 2) =~= encoding::u16_octets(1, little));
            law_u16(c, i, 1, little);
        } else {
            let first = parameters[0];
            let length = first.value.len() as u16;
            let rest = parameters.drop_first();
            let tail = encoding::parameter_list_octets(rest, last_length, little);
            let next = i + 4 + first.value.len();
            assert(first.id != 1);
            assert(octets.subrange(0, 2) =~= encoding::u16_octets(first.id, little));
            assert(octets.subrange(2, 4) =~= encoding::u16_octets(length, little));
            law_u16(c, i, first.id, little);
            law_u16(c, i + 2, length, little);
            assert(encoding::parameters_fit(rest)) by {
                assert(forall|k: int| 0 <= k < rest.len() ==> #[trigger] rest[k] == parameters[k
                    + 1]);
            }
            assert(octets.skip(4 + first.value.len() as int) =~= tail);
            if next <= c.len() {
                if whole {
                    assert(c.subrange(next, next + tail.len()) =~= part.skip(next - i));
                    assert(part.skip(next - i) =~= tail);
                } else {
                    assert(c.skip(next) =~= part.skip(next - i));
                    assert(part.skip(next - i) =~= tail.take(c.len() - next));
                }
                law_parameter_list(c, next, rest, last_length, little);
            }
        }
    }
}

/// What stands at `start` as inline parameters is read as that, if the flags
/// say that there are any.
proof fn lemma_inline_qos(
    c: Seq<u8>,
    start: int,
    parameters: Seq<Parameter>,
    last_length: u16,
    flags: SubmessageFlags,
)
    requires
        0 <= start <= c.len(),
        encoding::parameters_fit(parameters),
    ensures
        ({
            let octets = encoding::parameter_list_octets(
                parameters,
                last_length,
                encoding::is_little(flags),
            );
            let read = codec::inline_qos_of(c, start, flags);
            if flags.bits & 0x02 == 0x02 {
                &&& start + octets.len() <= c.len() && c.subrange(start, start + octets.len())
                    == octets ==> read == Ok::<(Option<Seq<u8>>, int), ReadError>(
                    (Some(octets), start + octets.len()),
                )
                &&& c.len() < start + octets.len() && c.skip(start) == octets.take(
                    c.len() - start,
                ) ==> read == Err::<(Option<Seq<u8>>, int), ReadError>(ReadError::UnexpectedEnd)
            } else {
                read == Ok::<(Option<Seq<u8>>, int), ReadError>((None, start))
            }
        }),
{
    law_parameter_list(c, start, parameters, last_length, encoding::is_little(flags));
}

/// A payload is all that follows: the four octets that say how it is encoded,
/// and every octet of the value after them. It cannot be read if the four are
/// not there.
pub proof fn law_payload(before: Seq<u8>, payload: SerializedPayloadView, n: int)
    ensures
        codec::serialized_payload_of(
            before + encoding::payload_octets(payload),
            before.len() as int,
        ) == Ok::<SerializedPayloadView, ReadError>(payload),
        before.len() <= n < before.len() + 4 ==> codec::serialized_payload_of(
            (before + encoding::payload_octets(payload)).take(n),
            before.len() as int,
        ) == Err::<SerializedPayloadView, ReadError>(ReadError::UnexpectedEnd),
{
    let c = before + encoding::payload_octets(payload);
    let read = codec::serialized_payload_of(c, before.len() as int)->Ok_0;
    assert(read.representation_identifier =~= payload.representation_identifier);
    assert(read.representation_options =~= payload.representation_options);
    assert(read.value =~= payload.value);
}

/// What the fields of DATA say, wherever they are followed by something.
proof fn lemma_data_fields(
    c: Seq<u8>,
    d: DataView,
    further: Seq<u8>,
    skipped: Seq<u8>,
    little: bool,
)
    requires
        further.len() == 2,
        16 + skipped.len() <= u16::MAX,
        20 <= c.len(),
        c.take(20) == encoding::data_fields_octets(d, further, skipped, little).take(20),
    ensures
        wire::u16_at(c, 2, little) == 16 + skipped.len(),
        guid::entity_id_at(c, 4) == d.reader_id,
        guid::entity_id_at(c, 8) == d.writer_id,
        elements::sequence_number_at(c, 12, little) == d.writer_sn,
{
    broadcast use encoding::group_lengths;

    let f = encoding::data_fields_octets(d, further, skipped, little);
    let to_qos = (16 + skipped.len()) as u16;
    assert forall|i: int, j: int| 0 <= i <= j <= 20 implies #[trigger] c.subrange(i, j)
        == f.subrange(i, j) by {
        assert(c.subrange(i, j) =~= c.take(20).subrange(i, j));
        assert(f.subrange(i, j) =~= f.take(20).subrange(i, j));
    }
    assert(c.subrange(2, 4) =~= encoding::u16_octets(to_qos, little));
    assert(c.subrange(4, 8) =~= encoding::entity_id_octets(d.reader_id));
    assert(c.subrange(8, 12) =~= encoding::entity_id_octets(d.writer_id));
    assert(c.subrange(12, 20) =~= encoding::i64_octets(d.writer_sn.value, little));
    law_u16(c, 2, to_qos, little);
    law_entity_id(c, 4, d.reader_id);
    law_entity_id(c, 8, d.writer_id);
    law_i64(c, 12, d.writer_sn.value, little);
}

/// DATA is read as it was written, in either byte order: its fields, the
/// inline parameters if the flags announce any, and the whole payload, of any
/// length, if the flags announce a value or a key. Without them, what follows
/// is left alone.
pub proof fn law_data(
    d: DataView,
    parameters: Seq<Parameter>,
    last_length: u16,
    further: Seq<u8>,
    skipped: Seq<u8>,
    flags: SubmessageFlags,
    rest: Seq<u8>,
)
    requires
        further.len() == 2,
        16 + skipped.len() <= u16::MAX,
        encoding::parameters_fit(parameters),
        d.inline_qos == if flags.bits & 0x02 == 0x02 {
            Some(
                encoding::parameter_list_octets(
                    parameters,
                    last_length,
                    encoding::is_little(flags),
                ),
            )
        } else {
            None
        },
        d.serialized_payload is Some <==> flags.bits & 0x04 == 0x04 || flags.bits & 0x08 == 0x08,
    ensures
        ({
            let fields = encoding::data_fields_octets(
                d,
                further,
                skipped,
                encoding::is_little(flags),
            );
            let head = match d.inline_qos {
                Some(qos) => fields + qos,
                None => fields,
            };
            let octets = match d.serialized_payload {
                Some(p) => head + encoding::payload_octets(p),
                None => head + rest,
            };
            codec::data_of(octets, flags) == Ok::<DataView, ReadError>(d)
        }),
{
    broadcast use encoding::group_lengths;

    let little = encoding::is_little(flags);
    let fields = encoding::data_fields_octets(d, further, skipped, little);
    let qos = encoding::parameter_list_octets(parameters, last_length, little);
    let head = match d.inline_qos {
        Some(qos) => fields + qos,
        None => fields,
    };
    let c = match d.serialized_payload {
        Some(p) => head + encoding::payload_octets(p),
        None => head + rest,
    };
    assert(c.take(20) =~= fields.take(20));
    lemma_data_fields(c, d, further, skipped, little);
    if d.inline_qos is Some {
        assert(c.subrange(fields.len() as int, head.len() as int) =~= qos);
    }
    lemma_inline_qos(c, fields.len() as int, parameters, last_length, flags);
    if let Some(p) = d.serialized_payload {
        law_payload(head, p, 0);
    }
}

/// DATA that ends before its payload has begun cannot be read.
pub proof fn law_short_data(
    d: DataView,
    parameters: Seq<Parameter>,
    last_length: u16,
    further: Seq<u8>,
    skipped: Seq<u8>,
    flags: SubmessageFlags,
    n: int,
)
    requires
        further.len() == 2,
        16 + skipped.len() <= u16::MAX,
        encoding::parameters_fit(parameters),
        d.inline_qos == if flags.bits & 0x02 == 0x02 {
            Some(
                encoding::parameter_list_octets(
                    parameters,
                    last_length,
                    encoding::is_little(flags),
                ),
            )
        } else {
            None
        },
        d.serialized_payload is Some <==> flags.bits & 0x04 == 0x04 || flags.bits & 0x08 == 0x08,
    ensures
        ({
            let fields = encoding::data_fields_octets(
                d,
                further,
                skipped,
                encoding::is_little(flags),
            );
            let head = match d.inline_qos {
                Some(qos) => fields + qos,
                None => fields,
            };
            let start = match d.serialized_payload {
                Some(p) => head + p.representation_identifier@ + p.representation_options@,
                None => head,
            };
            0 <= n < start.len() ==> codec::data_of(start.take(n), flags) == Err::<
                DataView,
                ReadError,
            >(ReadError::UnexpectedEnd)
        }),
{
    broadcast use encoding::group_lengths;

    let little = encoding::is_little(flags);
    let fields = encoding::data_fields_octets(d, further, skipped, little);
    let qos = encoding::parameter_list_octets(parameters, last_length, little);
    let head = match d.inline_qos {
        Some(qos) => fields + qos,
        None => fields,
    };
    let start = match d.serialized_payload {
        Some(p) => head + p.representation_identifier@ + p.representation_options@,
        None => head,
    };
    if 20 <= n < start.len() {
        let c = start.take(n);
        assert(c.take(20) =~= fields.take(20));
        lemma_data_fields(c, d, further, skipped, little);
        if fields.len() <= n {
            if d.inline_qos is Some {
                if n < head.len() {
                    assert(c.skip(fields.len() as int) =~= qos.take(n - fields.len()));
                } else {
                    assert(c.subrange(fields.len() as int, head.len() as int) =~= qos);
                }
            }
            lemma_inline_qos(c, fields.len() as int, parameters, last_length, flags);
        }
    }
}

/// DATA and DATA_FRAG whose inline parameters would start among their fields
/// cannot be read.
pub proof fn law_inline_qos_overlap(c: Seq<u8>, flags: SubmessageFlags, to_qos: u16)
    requires
        20 <= c.len(),
        c.subrange(2, 4) == encoding::u16_octets(to_qos, encoding::is_little(flags)),
    ensures
        to_qos < 16 ==> codec::data_of(c, flags) == Err::<DataView, ReadError>(
            ReadError::InlineQosOverlap,
        ),
        to_qos < 28 && 32 <= c.len() ==> codec::datafrag_of(c, flags) == Err::<
            DataFragView,
            ReadError,
        >(ReadError::InlineQosOverlap),
{
    law_u16(c, 2, to_qos, encoding::is_little(flags));
}

/// What the fields of DATA_FRAG say, wherever they are followed by something.
#[verifier::spinoff_prover]
#[verifier::rlimit(40)]
proof fn lemma_datafrag_fields(
    c: Seq<u8>,
    d: DataFragView,
    further: Seq<u8>,
    skipped: Seq<u8>,
    little: bool,
)
    requires
        further.len() == 2,
        28 + skipped.len() <= u16::MAX,
        32 <= c.len(),
        c.take(32) == encoding::datafrag_fields_octets(d, further, skipped, little).take(32),
    ensures
        wire::u16_at(c, 2, little) == 28 + skipped.len(),
        guid::entity_id_at(c, 4) == d.reader_id,
        guid::entity_id_at(c, 8) == d.writer_id,
        elements::sequence_number_at(c, 12, little) == d.writer_sn,
        wire::u32_at(c, 20, little) == d.fragment_starting_num,
        wire::u16_at(c, 24, little) == d.fragments_in_submessage,
        wire::u16_at(c, 26, little) == d.fragment_size,
        wire::u32_at(c, 28, little) == d.data_size,
{
    broadcast use encoding::group_lengths;

    let f = encoding::datafrag_fields_octets(d, further, skipped, little);
    let to_qos = (28 + skipped.len()) as u16;
    assert forall|i: int, j: int| 0 <= i <= j <= 32 implies #[trigger] c.subrange(i, j)
        == f.subrange(i, j) by {
        assert(c.subrange(i, j) =~= c.take(32).subrange(i, j));
        assert(f.subrange(i, j) =~= f.take(32).subrange(i, j));
    }
    assert(f.subrange(2, 4) =~= encoding::u16_octets(to_qos, little));
    assert(f.subrange(4, 8) =~= encoding::entity_id_octets(d.reader_id));
    assert(f.subrange(8, 12) =~= encoding::entity_id_octets(d.writer_id));
    assert(f.subrange(12, 20) =~= encoding::i64_octets(d.writer_sn.value, little));
    assert(f.subrange(20, 24) =~= encoding::u32_octets(d.fragment_starting_num, little));
    assert(f.subrange(24, 26) =~= encoding::u16_octets(d.fragments_in_submessage, little));
    assert(f.subrange(26, 28) =~= encoding::u16_octets(d.fragment_size, little));
    assert(f.subrange(28, 32) =~= encoding::u32_octets(d.data_size, little));
    law_u16(c, 2, to_qos, little);
    law_entity_id(c, 4, d.reader_id);
    law_entity_id(c, 8, d.writer_id);
    law_i64(c, 12, d.writer_sn.value, little);
    law_u32(c, 20, d.fragment_starting_num, little);
    law_u16(c, 24, d.fragments_in_submessage, little);
    law_u16(c, 26, d.fragment_size, little);
    law_u32(c, 28, d.data_size, little);
}

/// DATA_FRAG is read as it was written, in either byte order: its fields, the
/// inline parameters if the flags announce any, and all that follows as part
/// of a payload. One that ends before that cannot be read.
#[verifier::spinoff_prover]
#[verifier::rlimit(40)]
pub proof fn law_datafrag(
    d: DataFragView,
    parameters: Seq<Parameter>,
    last_length: u16,
    further: Seq<u8>,
    skipped: Seq<u8>,
    flags: SubmessageFlags,
    n: int,
)
    requires
        further.len() == 2,
        28 + skipped.len() <= u16::MAX,
        encoding::parameters_fit(parameters),
        d.inline_qos == if flags.bits & 0x02 == 0x02 {
            Some(
                encoding::parameter_list_octets(
                    parameters,
                    last_length,
                    encoding::is_little(flags),
                ),
            )
        } else {
            None
        },
    ensures
        ({
            let fields = encoding::datafrag_fields_octets(
                d,
                further,
                skipped,
                encoding::is_little(flags),
            );
            let head = match d.inline_qos {
                Some(qos) => fields + qos,
                None => fields,
            };
            &&& codec::datafrag_of(head + d.serialized_payload, flags) == Ok::<
                DataFragView,
                ReadError,
            >(d)
            &&& 0 <= n < head.len() ==> codec::datafrag_of(head.take(n), flags) == Err::<
                DataFragView,
                ReadError,
            >(ReadError::UnexpectedEnd)
        }),
{
    broadcast use encoding::group_lengths;

    let little = encoding::is_little(flags);
    let fields = encoding::datafrag_fields_octets(d, further, skipped, little);
    let qos = encoding::parameter_list_octets(parameters, last_length, little);
    let head = match d.inline_qos {
        Some(qos) => fields + qos,
        None => fields,
    };
    let c = head + d.serialized_payload;
    assert(c.take(32) =~= fields.take(32));
    lemma_datafrag_fields(c, d, further, skipped, little);
    if d.inline_qos is Some {
        assert(c.subrange(fields.len() as int, head.len() as int) =~= qos);
    }
    lemma_inline_qos(c, fields.len() as int, parameters, last_length, flags);
    assert(c.skip(head.len() as int) =~= d.serialized_payload);
    if 32 <= n < head.len() {
        let short = head.take(n);
        assert(short.take(32) =~= fields.take(32));
        lemma_datafrag_fields(short, d, further, skipped, little);
        if fields.len() <= n {
            assert(short.skip(fields.len() as int) =~= qos.take(n - fields.len()));
            lemma_inline_qos(short, fields.len() as int, parameters, last_length, flags);
        }
    }
}

/// A header is the protocol's name, the version, the vendor and the prefix of
/// the sender, in this order, whatever follows them: so it is read, and so it
/// is written.
pub proof fn law_header(h: Header, rest: Seq<u8>)
    ensures
        ({
            let octets = seq![
                0x52u8,
                0x54u8,
                0x50u8,
                0x53u8,
                h.protocol_version.major,
                h.protocol_version.minor,
                h.vendor_id.vendor_id@[0],
                h.vendor_id.vendor_id@[1],
            ] + h.guid_prefix.bytes@;
            &&& header::header_of(octets + rest) == Ok::<Header, ReadError>(h)
            &&& h.octets() == octets
        }),
{
    let octets = seq![
        0x52u8,
        0x54u8,
        0x50u8,
        0x53u8,
        h.protocol_version.major,
        h.protocol_version.minor,
        h.vendor_id.vendor_id@[0],
        h.vendor_id.vendor_id@[1],
    ] + h.guid_prefix.bytes@;
    let s = octets + rest;
    assert(h.octets() =~= octets);
    assert(s.subrange(0, 4) =~= seq![0x52u8, 0x54u8, 0x50u8, 0x53u8]);
    assert(s.subrange(8, 20) =~= h.guid_prefix.bytes@);
    law_guid_prefix(s, 8, h.guid_prefix);
    assert(header::header_of(s)->Ok_0.vendor_id.vendor_id =~= h.vendor_id.vendor_id);
}

/// What is shorter than a header is no message, nor is what does not start
/// with the protocol's name. Otherwise the message is its header and the
/// submessages after it, if these can be read.
pub proof fn law_message(s: Seq<u8>, h: Header, rest: Seq<u8>)
    ensures
        s.len() < 20 ==> message::message_of(s) == Err::<MessageView, ReadError>(
            ReadError::UnexpectedEnd,
        ),
        s.len() >= 20 && !(s[0] == 0x52 && s[1] == 0x54 && s[2] == 0x50 && s[3] == 0x53)
            ==> message::message_of(s) == Err::<MessageView, ReadError>(ReadError::NotRtps),
        message::message_of(h.octets() + rest) == match message::submessages_of(rest) {
            Ok(submessages) => Ok::<MessageView, ReadError>(MessageView { header: h, submessages }),
            Err(e) => Err(e),
        },
{
    law_header(h, rest);
    let t = s.subrange(0, 4);
    if s.len() >= 4 {
        assert(t[0] == s[0] && t[1] == s[1] && t[2] == s[2] && t[3] == s[3]);
    }
    assert((h.octets() + rest).skip(20) =~= rest);
}

/// The submessages of `first` followed by those of a message.
pub open spec fn followed_by(
    first: Result<Option<SubmessageBodyView>, ReadError>,
    rest: Result<Seq<SubmessageBodyView>, ReadError>,
) -> Result<Seq<SubmessageBodyView>, ReadError> {
    match (first, rest) {
        (Err(e), _) => Err(e),
        (_, Err(e)) => Err(e),
        (Ok(Some(body)), Ok(others)) => Ok(seq![body] + others),
        (Ok(None), Ok(others)) => Ok(others),
    }
}

/// Submessages are read one after another, each of them as long as it says
/// that it is. One that says that it is of length zero takes up all that is
/// left, unless it is PAD or INFO_TS.
pub proof fn law_submessages(
    kind: u8,
    flags: SubmessageFlags,
    content: Seq<u8>,
    rest: Seq<u8>,
)
    ensures
        message::submessages_of(seq![]) == Ok::<Seq<SubmessageBodyView>, ReadError>(seq![]),
        content.len() <= u16::MAX && (content.len() > 0 || kind == 0x01 || kind == 0x09)
            ==> message::submessages_of(encoding::submessage_octets(kind, flags, content) + rest)
            == followed_by(message::body_of(kind, flags, content), message::submessages_of(rest)),
        kind != 0x01 && kind != 0x09 ==> message::submessages_of(
            seq![kind, flags.bits, 0, 0] + content,
        ) == followed_by(
            message::body_of(kind, flags, content),
            Ok::<Seq<SubmessageBodyView>, ReadError>(seq![]),
        ),
{
    broadcast use encoding::group_lengths;

    let little = encoding::is_little(flags);
    if content.len() <= u16::MAX && (content.len() > 0 || kind == 0x01 || kind == 0x09) {
        let s = encoding::submessage_octets(kind, flags, content) + rest;
        let length = content.len() as u16;
        assert(s[0] == kind && s[1] == flags.bits);
        assert(s.subrange(2, 4) =~= encoding::u16_octets(length, little));
        law_u16(s, 2, length, little);
        assert(s.subrange(4, 4 + content.len() as int) =~= content);
        assert(s.skip(4 + content.len() as int) =~= rest);
    }
    if kind != 0x01 && kind != 0x09 {
        let s = seq![kind, flags.bits, 0, 0] + content;
        assert(s[0] == kind && s[1] == flags.bits && s[2] == 0 && s[3] == 0);
        assert(s.subrange(4, s.len() as int) =~= content);
        assert(s.skip(s.len() as int) =~= seq![]);
        match message::body_of(kind, flags, content) {
            Ok(Some(body)) => {
                assert(seq![body] + seq![] =~= seq![body]);
            },
            _ => {},
        }
    }
}

/// A message cannot be read if it ends within a submessage.
pub proof fn law_cut_submessage(
    kind: u8,
    flags: SubmessageFlags,
    content: Seq<u8>,
    n: int,
)
    requires
        0 < content.len() <= u16::MAX,
        0 < n < 4 + content.len(),
    ensures
        message::submessages_of(encoding::submessage_octets(kind, flags, content).take(n)) == Err::<
            Seq<SubmessageBodyView>,
            ReadError,
        >(ReadError::UnexpectedEnd),
{
    broadcast use encoding::group_lengths;

    let little = encoding::is_little(flags);
    let s = encoding::submessage_octets(kind, flags, content).take(n);
    if n >= 4 {
        let length = content.len() as u16;
        assert(s[1] == flags.bits);
        assert(s.subrange(2, 4) =~= encoding::u16_octets(length, little));
        law_u16(s, 2, length, little);
    }
}

/// An entity submessage of what could be read.
pub open spec fn read_entity<T>(
    read: Result<T, ReadError>,
    make: spec_fn(T) -> EntitySubmessageView,
) -> Result<Option<SubmessageBodyView>, ReadError> {
    match read {
        Ok(x) => Ok(Some(SubmessageBodyView::Entity(make(x)))),
        Err(e) => Err(e),
    }
}

/// An interpreter submessage of what could be read.
pub open spec fn read_interpreter<T>(
    read: Result<T, ReadError>,
    make: spec_fn(T) -> InterpreterSubmessageView,
) -> Result<Option<SubmessageBodyView>, ReadError> {
    match read {
        Ok(x) => Ok(Some(SubmessageBodyView::Interpreter(make(x)))),
        Err(e) => Err(e),
    }
}

/// Each kind of submessage has its number, and is read as that kind, with its
/// flags and in the byte order that they name. A submessage of any other kind
/// is passed over, whatever its content.
pub proof fn law_kinds(f: SubmessageFlags, c: Seq<u8>, kind: u8)
    ensures
        ({
            let little = encoding::is_little(f);
            &&& message::body_of(0x06, f, c) == read_entity(
                codec::acknack_of(c, little),
                |x: AckNack| EntitySubmessageView::AckNack(x, f),
            )
            &&& message::body_of(0x07, f, c) == read_entity(
                codec::heartbeat_of(c, little),
                |x: Heartbeat| EntitySubmessageView::Heartbeat(x, f),
            )
            &&& message::body_of(0x08, f, c) == read_entity(
                codec::gap_of(c, little),
                |x: Gap| EntitySubmessageView::Gap(x, f),
            )
            &&& message::body_of(0x12, f, c) == read_entity(
                codec::nackfrag_of(c, little),
                |x: NackFrag| EntitySubmessageView::NackFrag(x, f),
            )
            &&& message::body_of(0x13, f, c) == read_entity(
                codec::heartbeatfrag_of(c, little),
                |x: HeartbeatFrag| EntitySubmessageView::HeartbeatFrag(x, f),
            )
            &&& message::body_of(0x15, f, c) == read_entity(
                codec::data_of(c, f),
                |x: DataView| EntitySubmessageView::Data(x, f),
            )
            &&& message::body_of(0x16, f, c) == read_entity(
                codec::datafrag_of(c, f),
                |x: DataFragView| EntitySubmessageView::DataFrag(x, f),
            )
            &&& message::body_of(0x09, f, c) == read_interpreter(
                codec::info_timestamp_of(c, f),
                |x: InfoTimestamp| InterpreterSubmessageView::InfoTimestamp(x, f),
            )
            &&& message::body_of(0x0c, f, c) == read_interpreter(
                codec::info_source_of(c),
                |x: InfoSource| InterpreterSubmessageView::InfoSource(x, f),
            )
            &&& message::body_of(0x0e, f, c) == read_interpreter(
                codec::info_destination_of(c),
                |x: InfoDestination| InterpreterSubmessageView::InfoDestination(x, f),
            )
            &&& message::body_of(0x0f, f, c) == read_interpreter(
                codec::info_reply_of(c, f),
                |x: InfoReplyView| InterpreterSubmessageView::InfoReply(x, f),
            )
            &&& !seq![
                0x06u8,
                0x07u8,
                0x08u8,
                0x09u8,
                0x0cu8,
                0x0eu8,
                0x0fu8,
                0x12u8,
                0x13u8,
                0x15u8,
                0x16u8,
            ].contains(kind) ==> message::body_of(kind, f, c) == Ok::<
                Option<SubmessageBodyView>,
                ReadError,
            >(None)
        }),
{
    reveal(message::body_of);
    let known = seq![
        0x06u8,
        0x07u8,
        0x08u8,
        0x09u8,
        0x0cu8,
        0x0eu8,
        0x0fu8,
        0x12u8,
        0x13u8,
        0x15u8,
        0x16u8,
    ];
    assert(known[0] == 0x06 && known[1] == 0x07 && known[2] == 0x08 && known[3] == 0x09 && known[4]
        == 0x0c && known[5] == 0x0e && known[6] == 0x0f && known[7] == 0x12 && known[8] == 0x13
        && known[9] == 0x15 && known[10] == 0x16);
}

/// A packet too short for a header is a ping if it starts with the protocol's
/// name and has the word DDSPING at its tenth octet, and too short otherwise.
/// Any other packet is handled if it can be read as a message, and malformed
/// if it cannot.
pub proof fn law_packets(s: Seq<u8>)
    ensures
        packet::outcome_of(s) == if s.len() >= 20 {
            match message::message_of(s) {
                Ok(_) => PacketOutcome::Handled,
                Err(e) => PacketOutcome::Malformed(e),
            }
        } else if s.len() >= 16 && s[0] == 0x52 && s[1] == 0x54 && s[2] == 0x50 && s[3] == 0x53
            && s[9] == 0x44 && s[10] == 0x44 && s[11] == 0x53 && s[12] == 0x50 && s[13] == 0x49
            && s[14] == 0x4e && s[15] == 0x47 {
            PacketOutcome::Ping
        } else {
            PacketOutcome::TooShort
        },
{
    if 16 <= s.len() < 20 {
        let name = s.subrange(0, 4);
        let word = s.subrange(9, 16);
        assert(name[0] == s[0] && name[1] == s[1] && name[2] == s[2] && name[3] == s[3]);
        assert(word[0] == s[9] && word[1] == s[10] && word[2] == s[11] && word[3] == s[12]
            && word[4] == s[13] && word[5] == s[14] && word[6] == s[15]);
        if s[0] == 0x52 && s[1] == 0x54 && s[2] == 0x50 && s[3] == 0x53 && s[9] == 0x44 && s[10]
            == 0x44 && s[11] == 0x53 && s[12] == 0x50 && s[13] == 0x49 && s[14] == 0x4e && s[15]
            == 0x47 {
            assert(name =~= seq![0x52u8, 0x54u8, 0x50u8, 0x53u8]);
            assert(word =~= seq![0x44u8, 0x44u8, 0x53u8, 0x50u8, 0x49u8, 0x4eu8, 0x47u8]);
        }
    }
}

} // verus!
