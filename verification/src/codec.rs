//! How the contents of submessages are laid out.
//!
//! For each kind there is a function that says which value the octets after
//! the submessage header stand for, and one that reads it. Octets after the
//! last field are left unread.
use vstd::prelude::*;
use vstd::slice::slice_subrange;
use vstd::slice::slice_to_vec;

use crate::elements;
use crate::elements::ProtocolVersion;
use crate::elements::ReadError;
use crate::elements::Timestamp;
use crate::elements::VendorId;
use crate::guid;
use crate::submessages;
use crate::submessages::AckNack;
use crate::submessages::DATA_FLAG_DATA;
use crate::submessages::DATA_FLAG_INLINE_QOS;
use crate::submessages::DATA_FLAG_KEY;
use crate::submessages::Data;
use crate::submessages::DataFrag;
use crate::submessages::DataFragView;
use crate::submessages::DataView;
use crate::submessages::FLAG_ENDIANNESS;
use crate::submessages::Gap;
use crate::submessages::Heartbeat;
use crate::submessages::HeartbeatFrag;
use crate::submessages::INFOREPLY_FLAG_MULTICAST;
use crate::submessages::INFOTIMESTAMP_FLAG_INVALIDATE;
use crate::submessages::InfoDestination;
use crate::submessages::InfoReply;
use crate::submessages::InfoReplyView;
use crate::submessages::InfoSource;
use crate::submessages::InfoTimestamp;
use crate::submessages::NackFrag;
use crate::submessages::SerializedPayload;
use crate::submessages::SerializedPayloadView;
use crate::submessages::SubmessageFlags;
use crate::wire;

verus! {

/// HEARTBEAT.
pub open spec fn heartbeat_of(c: Seq<u8>, little: bool) -> Result<Heartbeat, ReadError> {
    if c.len() < 28 {
        Err(ReadError::UnexpectedEnd)
    } else {
        Ok(
            Heartbeat {
                reader_id: guid::entity_id_at(c, 0),
                writer_id: guid::entity_id_at(c, 4),
                first_sn: elements::sequence_number_at(c, 8, little),
                last_sn: elements::sequence_number_at(c, 16, little),
                count: wire::i32_at(c, 24, little),
            },
        )
    }
}

/// Reads [`heartbeat_of`].
pub fn read_heartbeat(c: &[u8], little: bool) -> (r: Result<Heartbeat, ReadError>)
    ensures
        r == heartbeat_of(c@, little),
{
    if c.len() < 28 {
        return Err(ReadError::UnexpectedEnd);
    }
    Ok(
        Heartbeat {
            reader_id: guid::read_entity_id(c, 0),
            writer_id: guid::read_entity_id(c, 4),
            first_sn: elements::read_sequence_number(c, 8, little),
            last_sn: elements::read_sequence_number(c, 16, little),
            count: wire::read_i32(c, 24, little),
        },
    )
}

/// HEARTBEAT_FRAG.
pub open spec fn heartbeatfrag_of(c: Seq<u8>, little: bool) -> Result<HeartbeatFrag, ReadError> {
    if c.len() < 24 {
        Err(ReadError::UnexpectedEnd)
    } else {
        Ok(
            HeartbeatFrag {
                reader_id: guid::entity_id_at(c, 0),
                writer_id: guid::entity_id_at(c, 4),
                writer_sn: elements::sequence_number_at(c, 8, little),
                last_fragment_num: wire::u32_at(c, 16, little),
                count: wire::i32_at(c, 20, little),
            },
        )
    }
}

/// Reads [`heartbeatfrag_of`].
pub fn read_heartbeatfrag(c: &[u8], little: bool) -> (r: Result<HeartbeatFrag, ReadError>)
    ensures
        r == heartbeatfrag_of(c@, little),
{
    if c.len() < 24 {
        return Err(ReadError::UnexpectedEnd);
    }
    Ok(
        HeartbeatFrag {
            reader_id: guid::read_entity_id(c, 0),
            writer_id: guid::read_entity_id(c, 4),
            writer_sn: elements::read_sequence_number(c, 8, little),
            last_fragment_num: wire::read_u32(c, 16, little),
            count: wire::read_i32(c, 20, little),
        },
    )
}

/// GAP.
pub open spec fn gap_of(c: Seq<u8>, little: bool) -> Result<Gap, ReadError> {
    if c.len() < 24 {
        Err(ReadError::UnexpectedEnd)
    } else {
        match elements::sequence_number_set_at(c, 16, little) {
            Err(e) => Err(e),
            Ok((gap_list, _)) => Ok(
                Gap {
                    reader_id: guid::entity_id_at(c, 0),
                    writer_id: guid::entity_id_at(c, 4),
                    gap_start: elements::sequence_number_at(c, 8, little),
                    gap_list,
                },
            ),
        }
    }
}

/// Reads [`gap_of`].
pub fn read_gap(c: &[u8], little: bool) -> (r: Result<Gap, ReadError>)
    ensures
        r == gap_of(c@, little),
{
    if c.len() < 24 {
        return Err(ReadError::UnexpectedEnd);
    }
    match elements::read_sequence_number_set(c, 16, little) {
        Err(e) => Err(e),
        Ok((gap_list, _)) => Ok(
            Gap {
                reader_id: guid::read_entity_id(c, 0),
                writer_id: guid::read_entity_id(c, 4),
                gap_start: elements::read_sequence_number(c, 8, little),
                gap_list,
            },
        ),
    }
}

/// ACKNACK.
pub open spec fn acknack_of(c: Seq<u8>, little: bool) -> Result<AckNack, ReadError> {
    if c.len() < 16 {
        Err(ReadError::UnexpectedEnd)
    } else {
        match elements::sequence_number_set_at(c, 8, little) {
            Err(e) => Err(e),
            Ok((reader_sn_state, end)) => if end + 4 > c.len() {
                Err(ReadError::UnexpectedEnd)
            } else {
                Ok(
                    AckNack {
                        reader_id: guid::entity_id_at(c, 0),
                        writer_id: guid::entity_id_at(c, 4),
                        reader_sn_state,
                        count: wire::i32_at(c, end, little),
                    },
                )
            },
        }
    }
}

/// Reads [`acknack_of`].
pub fn read_acknack(c: &[u8], little: bool) -> (r: Result<AckNack, ReadError>)
    ensures
        r == acknack_of(c@, little),
{
    if c.len() < 16 {
        return Err(ReadError::UnexpectedEnd);
    }
    match elements::read_sequence_number_set(c, 8, little) {
        Err(e) => Err(e),
        Ok((reader_sn_state, end)) => if c.len() - end < 4 {
            Err(ReadError::UnexpectedEnd)
        } else {
            Ok(
                AckNack {
                    reader_id: guid::read_entity_id(c, 0),
                    writer_id: guid::read_entity_id(c, 4),
                    reader_sn_state,
                    count: wire::read_i32(c, end, little),
                },
            )
        },
    }
}

/// NACK_FRAG.
pub open spec fn nackfrag_of(c: Seq<u8>, little: bool) -> Result<NackFrag, ReadError> {
    if c.len() < 20 {
        Err(ReadError::UnexpectedEnd)
    } else {
        match elements::fragment_number_set_at(c, 16, little) {
            Err(e) => Err(e),
            Ok((fragment_number_state, end)) => if end + 4 > c.len() {
                Err(ReadError::UnexpectedEnd)
            } else {
                Ok(
                    NackFrag {
                        reader_id: guid::entity_id_at(c, 0),
                        writer_id: guid::entity_id_at(c, 4),
                        writer_sn: elements::sequence_number_at(c, 8, little),
                        fragment_number_state,
                        count: wire::i32_at(c, end, little),
                    },
                )
            },
        }
    }
}

/// Reads [`nackfrag_of`].
pub fn read_nackfrag(c: &[u8], little: bool) -> (r: Result<NackFrag, ReadError>)
    ensures
        r == nackfrag_of(c@, little),
{
    if c.len() < 20 {
        return Err(ReadError::UnexpectedEnd);
    }
    match elements::read_fragment_number_set(c, 16, little) {
        Err(e) => Err(e),
        Ok((fragment_number_state, end)) => if c.len() - end < 4 {
            Err(ReadError::UnexpectedEnd)
        } else {
            Ok(
                NackFrag {
                    reader_id: guid::read_entity_id(c, 0),
                    writer_id: guid::read_entity_id(c, 4),
                    writer_sn: elements::read_sequence_number(c, 8, little),
                    fragment_number_state,
                    count: wire::read_i32(c, end, little),
                },
            )
        },
    }
}

/// INFO_TS. With the invalidate flag there is no timestamp to read.
pub open spec fn info_timestamp_of(c: Seq<u8>, flags: SubmessageFlags) -> Result<
    InfoTimestamp,
    ReadError,
> {
    let little = flags.contains(FLAG_ENDIANNESS);
    if flags.contains(INFOTIMESTAMP_FLAG_INVALIDATE) {
        Ok(InfoTimestamp { timestamp: None })
    } else if c.len() < 8 {
        Err(ReadError::UnexpectedEnd)
    } else {
        Ok(
            InfoTimestamp {
                timestamp: Some(
                    Timestamp {
                        seconds: wire::u32_at(c, 0, little),
                        fraction: wire::u32_at(c, 4, little),
                    },
                ),
            },
        )
    }
}

/// Reads [`info_timestamp_of`].
pub fn read_info_timestamp(c: &[u8], flags: SubmessageFlags) -> (r: Result<
    InfoTimestamp,
    ReadError,
>)
    ensures
        r == info_timestamp_of(c@, flags),
{
    let little: bool = flags.contains(FLAG_ENDIANNESS);
    if flags.contains(INFOTIMESTAMP_FLAG_INVALIDATE) {
        return Ok(InfoTimestamp { timestamp: None });
    }
    if c.len() < 8 {
        return Err(ReadError::UnexpectedEnd);
    }
    Ok(
        InfoTimestamp {
            timestamp: Some(
                Timestamp {
                    seconds: wire::read_u32(c, 0, little),
                    fraction: wire::read_u32(c, 4, little),
                },
            ),
        },
    )
}

/// INFO_SRC. Its first four octets are unused.
pub open spec fn info_source_of(c: Seq<u8>) -> Result<InfoSource, ReadError> {
    if c.len() < 20 {
        Err(ReadError::UnexpectedEnd)
    } else {
        Ok(
            InfoSource {
                protocol_version: ProtocolVersion { major: c[4], minor: c[5] },
                vendor_id: VendorId { vendor_id: [c[6], c[7]] },
                guid_prefix: guid::guid_prefix_at(c, 8),
            },
        )
    }
}

/// Reads [`info_source_of`].
pub fn read_info_source(c: &[u8]) -> (r: Result<InfoSource, ReadError>)
    ensures
        r == info_source_of(c@),
{
    if c.len() < 20 {
        return Err(ReadError::UnexpectedEnd);
    }
    Ok(
        InfoSource {
            protocol_version: ProtocolVersion { major: c[4], minor: c[5] },
            vendor_id: VendorId { vendor_id: [c[6], c[7]] },
            guid_prefix: guid::read_guid_prefix(c, 8),
        },
    )
}

/// INFO_DST.
pub open spec fn info_destination_of(c: Seq<u8>) -> Result<InfoDestination, ReadError> {
    if c.len() < 12 {
        Err(ReadError::UnexpectedEnd)
    } else {
        Ok(InfoDestination { guid_prefix: guid::guid_prefix_at(c, 0) })
    }
}

/// Reads [`info_destination_of`].
pub fn read_info_destination(c: &[u8]) -> (r: Result<InfoDestination, ReadError>)
    ensures
        r == info_destination_of(c@),
{
    if c.len() < 12 {
        return Err(ReadError::UnexpectedEnd);
    }
    Ok(InfoDestination { guid_prefix: guid::read_guid_prefix(c, 0) })
}

/// INFO_REPLY. The list of multicast locators is there if the flags say so.
pub open spec fn info_reply_of(c: Seq<u8>, flags: SubmessageFlags) -> Result<
    InfoReplyView,
    ReadError,
> {
    let little = flags.contains(FLAG_ENDIANNESS);
    match elements::locator_list_at(c, 0, little) {
        Err(e) => Err(e),
        Ok(unicast) => if !flags.contains(INFOREPLY_FLAG_MULTICAST) {
            Ok(InfoReplyView { unicast_locator_list: unicast, multicast_locator_list: None })
        } else {
            match elements::locator_list_at(
                c,
                elements::locator_list_size(unicast.len() as int),
                little,
            ) {
                Err(e) => Err(e),
                Ok(multicast) => Ok(
                    InfoReplyView {
                        unicast_locator_list: unicast,
                        multicast_locator_list: Some(multicast),
                    },
                ),
            }
        },
    }
}

/// Reads [`info_reply_of`].
pub fn read_info_reply(c: &[u8], flags: SubmessageFlags) -> (r: Result<InfoReply, ReadError>)
    ensures
        match r {
            Ok(v) => info_reply_of(c@, flags) == Ok::<InfoReplyView, ReadError>(v@),
            Err(e) => info_reply_of(c@, flags) == Err::<InfoReplyView, ReadError>(e),
        },
{
    let little: bool = flags.contains(FLAG_ENDIANNESS);
    let unicast = match elements::read_locator_list(c, 0, little) {
        Err(e) => return Err(e),
        Ok(l) => l,
    };
    if !flags.contains(INFOREPLY_FLAG_MULTICAST) {
        return Ok(InfoReply { unicast_locator_list: unicast, multicast_locator_list: None });
    }
    assert(c.len() >= elements::locator_list_size(unicast@.len() as int));
    match elements::read_locator_list(c, 4 + 24 * unicast.len(), little) {
        Err(e) => Err(e),
        Ok(multicast) => Ok(
            InfoReply { unicast_locator_list: unicast, multicast_locator_list: Some(multicast) },
        ),
    }
}

/// The identifier of the parameter that ends a list of parameters.
pub const PID_SENTINEL: u16 = 1;

/// Where the list of parameters that starts at `i` ends. A parameter is an
/// identifier, a length, and as many octets.
pub open spec fn parameter_list_end(c: Seq<u8>, i: int, little: bool) -> Result<int, ReadError>
    decreases c.len() - i,
{
    if i + 4 > c.len() {
        Err(ReadError::UnexpectedEnd)
    } else if wire::u16_at(c, i, little) == PID_SENTINEL {
        Ok(i + 4)
    } else if i + 4 + wire::u16_at(c, i + 2, little) > c.len() {
        Err(ReadError::UnexpectedEnd)
    } else {
        parameter_list_end(c, i + 4 + wire::u16_at(c, i + 2, little), little)
    }
}

fn find_parameter_list_end(c: &[u8], start: usize, little: bool) -> (r: Result<usize, ReadError>)
    requires
        start <= c.len(),
    ensures
        match r {
            Ok(end) => parameter_list_end(c@, start as int, little) == Ok::<int, ReadError>(
                end as int,
            ) && start <= end <= c.len(),
            Err(e) => parameter_list_end(c@, start as int, little) == Err::<int, ReadError>(e),
        },
{
    let mut i: usize = start;
    loop
        invariant
            start <= i <= c.len(),
            parameter_list_end(c@, start as int, little) == parameter_list_end(
                c@,
                i as int,
                little,
            ),
        decreases c.len() - i,
    {
        if c.len() - i < 4 {
            return Err(ReadError::UnexpectedEnd);
        }
        if wire::read_u16(c, i, little) == PID_SENTINEL {
            return Ok(i + 4);
        }
        let length: usize = wire::read_u16(c, i + 2, little) as usize;
        if c.len() - i - 4 < length {
            return Err(ReadError::UnexpectedEnd);
        }
        i = i + 4 + length;
    }
}

/// The inline parameters that start at `start`, if the flags say that there
/// are any, and where what follows them starts.
pub open spec fn inline_qos_of(c: Seq<u8>, start: int, flags: SubmessageFlags) -> Result<
    (Option<Seq<u8>>, int),
    ReadError,
> {
    if start > c.len() {
        Err(ReadError::UnexpectedEnd)
    } else if flags.contains(DATA_FLAG_INLINE_QOS) {
        match parameter_list_end(c, start, flags.contains(FLAG_ENDIANNESS)) {
            Err(e) => Err(e),
            Ok(end) => Ok((Some(c.subrange(start, end)), end)),
        }
    } else {
        Ok((None, start))
    }
}

fn read_inline_qos(c: &[u8], start: usize, flags: SubmessageFlags) -> (r: Result<
    (Option<Vec<u8>>, usize),
    ReadError,
>)
    ensures
        match r {
            Ok((qos, end)) => inline_qos_of(c@, start as int, flags) == Ok::<
                (Option<Seq<u8>>, int),
                ReadError,
            >((submessages::octets_view(qos), end as int)) && end <= c.len(),
            Err(e) => inline_qos_of(c@, start as int, flags) == Err::<
                (Option<Seq<u8>>, int),
                ReadError,
            >(e),
        },
{
    if start > c.len() {
        return Err(ReadError::UnexpectedEnd);
    }
    if !flags.contains(DATA_FLAG_INLINE_QOS) {
        return Ok((None, start));
    }
    match find_parameter_list_end(c, start, flags.contains(FLAG_ENDIANNESS)) {
        Err(e) => Err(e),
        Ok(end) => Ok((Some(slice_to_vec(slice_subrange(c, start, end))), end)),
    }
}

/// The payload that takes up `c` from `start` on.
pub open spec fn serialized_payload_of(c: Seq<u8>, start: int) -> Result<
    SerializedPayloadView,
    ReadError,
> {
    if start + 4 > c.len() {
        Err(ReadError::UnexpectedEnd)
    } else {
        Ok(
            SerializedPayloadView {
                representation_identifier: [c[start], c[start + 1]],
                representation_options: [c[start + 2], c[start + 3]],
                value: c.skip(start + 4),
            },
        )
    }
}

fn read_serialized_payload(c: &[u8], start: usize) -> (r: Result<SerializedPayload, ReadError>)
    requires
        start <= c.len(),
    ensures
        match r {
            Ok(p) => serialized_payload_of(c@, start as int) == Ok::<
                SerializedPayloadView,
                ReadError,
            >(p@),
            Err(e) => serialized_payload_of(c@, start as int) == Err::<
                SerializedPayloadView,
                ReadError,
            >(e),
        },
{
    if c.len() - start < 4 {
        return Err(ReadError::UnexpectedEnd);
    }
    let value = slice_to_vec(slice_subrange(c, start + 4, c.len()));
    assert(value@ =~= c@.skip(start + 4));
    Ok(
        SerializedPayload {
            representation_identifier: [c[start], c[start + 1]],
            representation_options: [c[start + 2], c[start + 3]],
            value,
        },
    )
}

/// DATA. How far the inline parameters are away is written in its third and
/// fourth octet, counted from after these; there are sixteen octets of fields
/// in between. There is a payload if the flags say that it is a value or a
/// key.
pub open spec fn data_of(c: Seq<u8>, flags: SubmessageFlags) -> Result<DataView, ReadError> {
    let little = flags.contains(FLAG_ENDIANNESS);
    if c.len() < 20 {
        Err(ReadError::UnexpectedEnd)
    } else if wire::u16_at(c, 2, little) < 16 {
        Err(ReadError::InlineQosOverlap)
    } else {
        match inline_qos_of(c, 4 + wire::u16_at(c, 2, little), flags) {
            Err(e) => Err(e),
            Ok((inline_qos, start)) => {
                let data = DataView {
                    reader_id: guid::entity_id_at(c, 4),
                    writer_id: guid::entity_id_at(c, 8),
                    writer_sn: elements::sequence_number_at(c, 12, little),
                    inline_qos,
                    serialized_payload: None,
                };
                if !flags.contains(DATA_FLAG_DATA) && !flags.contains(DATA_FLAG_KEY) {
                    Ok(data)
                } else {
                    match serialized_payload_of(c, start) {
                        Err(e) => Err(e),
                        Ok(p) => Ok(DataView { serialized_payload: Some(p), ..data }),
                    }
                }
            },
        }
    }
}

/// Reads [`data_of`].
pub fn read_data(c: &[u8], flags: SubmessageFlags) -> (r: Result<Data, ReadError>)
    ensures
        match r {
            Ok(d) => data_of(c@, flags) == Ok::<DataView, ReadError>(d@),
            Err(e) => data_of(c@, flags) == Err::<DataView, ReadError>(e),
        },
{
    let little: bool = flags.contains(FLAG_ENDIANNESS);
    if c.len() < 20 {
        return Err(ReadError::UnexpectedEnd);
    }
    let octets_to_inline_qos: usize = wire::read_u16(c, 2, little) as usize;
    if octets_to_inline_qos < 16 {
        return Err(ReadError::InlineQosOverlap);
    }
    let (inline_qos, start) = match read_inline_qos(c, 4 + octets_to_inline_qos, flags) {
        Err(e) => return Err(e),
        Ok(x) => x,
    };
    let serialized_payload = if flags.contains(DATA_FLAG_DATA) || flags.contains(DATA_FLAG_KEY) {
        match read_serialized_payload(c, start) {
            Err(e) => return Err(e),
            Ok(p) => Some(p),
        }
    } else {
        None
    };
    Ok(
        Data {
            reader_id: guid::read_entity_id(c, 4),
            writer_id: guid::read_entity_id(c, 8),
            writer_sn: elements::read_sequence_number(c, 12, little),
            inline_qos,
            serialized_payload,
        },
    )
}

/// DATA_FRAG. As in DATA, but with twenty-eight octets of fields before the
/// inline parameters; the rest is part of a payload.
pub open spec fn datafrag_of(c: Seq<u8>, flags: SubmessageFlags) -> Result<
    DataFragView,
    ReadError,
> {
    let little = flags.contains(FLAG_ENDIANNESS);
    if c.len() < 32 {
        Err(ReadError::UnexpectedEnd)
    } else if wire::u16_at(c, 2, little) < 28 {
        Err(ReadError::InlineQosOverlap)
    } else {
        match inline_qos_of(c, 4 + wire::u16_at(c, 2, little), flags) {
            Err(e) => Err(e),
            Ok((inline_qos, start)) => Ok(
                DataFragView {
                    reader_id: guid::entity_id_at(c, 4),
                    writer_id: guid::entity_id_at(c, 8),
                    writer_sn: elements::sequence_number_at(c, 12, little),
                    fragment_starting_num: wire::u32_at(c, 20, little),
                    fragments_in_submessage: wire::u16_at(c, 24, little),
                    fragment_size: wire::u16_at(c, 26, little),
                    data_size: wire::u32_at(c, 28, little),
                    inline_qos,
                    serialized_payload: c.skip(start),
                },
            ),
        }
    }
}

/// Reads [`datafrag_of`].
pub fn read_datafrag(c: &[u8], flags: SubmessageFlags) -> (r: Result<DataFrag, ReadError>)
    ensures
        match r {
            Ok(d) => datafrag_of(c@, flags) == Ok::<DataFragView, ReadError>(d@),
            Err(e) => datafrag_of(c@, flags) == Err::<DataFragView, ReadError>(e),
        },
{
    let little: bool = flags.contains(FLAG_ENDIANNESS);
    if c.len() < 32 {
        return Err(ReadError::UnexpectedEnd);
    }
    let octets_to_inline_qos: usize = wire::read_u16(c, 2, little) as usize;
    if octets_to_inline_qos < 28 {
        return Err(ReadError::InlineQosOverlap);
    }
    let (inline_qos, start) = match read_inline_qos(c, 4 + octets_to_inline_qos, flags) {
        Err(e) => return Err(e),
        Ok(x) => x,
    };
    let serialized_payload = slice_to_vec(slice_subrange(c, start, c.len()));
    assert(serialized_payload@ =~= c@.skip(start as int));
    Ok(
        DataFrag {
            reader_id: guid::read_entity_id(c, 4),
            writer_id: guid::read_entity_id(c, 8),
            writer_sn: elements::read_sequence_number(c, 12, little),
            fragment_starting_num: wire::read_u32(c, 20, little),
            fragments_in_submessage: wire::read_u16(c, 24, little),
            fragment_size: wire::read_u16(c, 26, little),
            data_size: wire::read_u32(c, 28, little),
            inline_qos,
            serialized_payload,
        },
    )
}

} // verus!
