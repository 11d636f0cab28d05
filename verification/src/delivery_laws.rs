//! What is handed on, to whom, and what goes with it, said outright for each
//! kind of submessage and of request.
use vstd::prelude::*;

use crate::channel::SendAnswer;
use crate::effect;
use crate::effect::Effect;
use crate::effect::EffectView;
use crate::elements::ProtocolVersion;
use crate::elements::ReadError;
use crate::elements::SequenceNumber;
use crate::elements::Timestamp;
use crate::elements::VendorId;
use crate::encoding;
use crate::guid;
use crate::guid::EntityId;
use crate::guid::GUID;
use crate::guid::GuidPrefix;
use crate::header::Header;
use crate::laws;
use crate::message;
use crate::message::Message;
use crate::message_receiver::MessageReceiver;
use crate::message_receiver::MessageReceiverState;
use crate::message_receiver::MessageReceiverStateView;
use crate::model;
use crate::model::ContextView;
use crate::model::MessageView;
use crate::model::ReceiverView;
use crate::order;
use crate::reader;
use crate::reader::CacheChange;
use crate::reader::CacheChangeView;
use crate::reader::DDSData;
use crate::reader::Reader;
use crate::reader::ReaderEvent;
use crate::reader::ReaderEventView;
use crate::reader::ReaderView;
use crate::reading_laws;
use crate::submessages::AckSubmessage;
use crate::submessages::Data;
use crate::submessages::DataFrag;
use crate::submessages::DataFragView;
use crate::submessages::DataView;
use crate::submessages::EntitySubmessage;
use crate::submessages::EntitySubmessageView;
use crate::submessages::Gap;
use crate::submessages::Heartbeat;
use crate::submessages::HeartbeatFrag;
use crate::submessages::InfoDestination;
use crate::submessages::InfoReply;
use crate::submessages::InfoReplyView;
use crate::submessages::InfoSource;
use crate::submessages::InfoTimestamp;
use crate::submessages::InterpreterSubmessage;
use crate::submessages::InterpreterSubmessageView;
use crate::submessages::SerializedPayload;
use crate::submessages::Submessage;
use crate::submessages::SubmessageBody;
use crate::submessages::SubmessageBodyView;
use crate::submessages::SubmessageFlags;

verus! {

/// Whether all octets of the prefix are zero, so that it names nobody.
pub open spec fn names_nobody(prefix: GuidPrefix) -> bool {
    forall|k: int| 0 <= k < 12 ==> #[trigger] prefix.bytes@[k] == 0
}

/// Whether what comes next is meant for the participant of this receiver.
pub open spec fn is_meant(receiver: ReceiverView) -> bool {
    ||| receiver.context.dest_guid_prefix == receiver.own_guid_prefix
    ||| names_nobody(receiver.context.dest_guid_prefix)
}

/// What goes with a submessage to a reader: who sent it, where replies go, and
/// its time, as they stand.
pub open spec fn accompanies(context: ContextView) -> MessageReceiverStateView {
    MessageReceiverStateView {
        source_guid_prefix: context.source_guid_prefix,
        unicast_reply_locator_list: context.unicast_reply_locator_list,
        multicast_reply_locator_list: context.multicast_reply_locator_list,
        source_timestamp: context.source_timestamp,
    }
}

/// The values that have a meaning of their own: nobody and nothing is all
/// zeros, an invalid time is all ones, and the built-in endpoints that announce
/// participants have fixed identifiers.
pub proof fn law_fixed_values(prefix: GuidPrefix)
    ensures
        prefix == GuidPrefix::unknown() <==> names_nobody(prefix),
        EntityId::unknown().value == 0,
        encoding::entity_id_octets(EntityId::spdp_builtin_participant_writer()) == seq![
            0u8,
            1u8,
            0u8,
            0xc2u8,
        ],
        encoding::entity_id_octets(EntityId::spdp_builtin_participant_reader()) == seq![
            0u8,
            1u8,
            0u8,
            0xc7u8,
        ],
        GUID::unknown() == (GUID {
            prefix: GuidPrefix::unknown(),
            entity_id: EntityId::unknown(),
        }),
        VendorId::vendor_unknown().vendor_id@ == seq![0u8, 0u8],
        Timestamp::invalid().seconds == u32::MAX,
        Timestamp::invalid().fraction == u32::MAX,
        ProtocolVersion::this_implementation() == (ProtocolVersion { major: 2, minor: 3 }),
{
    reveal(encoding::u32_octets);
    if names_nobody(prefix) {
        let nobody = GuidPrefix::unknown();
        assert forall|k: int| 0 <= k < 12 implies prefix.bytes@[k]
            == #[trigger] nobody.bytes@[k] by {
            assert(prefix.bytes@[k] == 0);
        }
        assert(prefix.bytes =~= nobody.bytes);
    }
    assert(VendorId::vendor_unknown().vendor_id@ =~= seq![0u8, 0u8]);
}

/// Flags contain a mask if setting its bits changes nothing.
pub proof fn law_flags(flags: SubmessageFlags, mask: u8)
    ensures
        flags.contains(mask) <==> flags.bits | mask == flags.bits,
{
    let bits = flags.bits;
    assert(bits & mask == mask <==> bits | mask == bits) by (bit_vector);
}

/// Submessages are meant for the participant that they name, and for everybody
/// if they name nobody.
pub proof fn law_meant(receiver: ReceiverView)
    ensures
        receiver.context.is_for(receiver.own_guid_prefix) <==> is_meant(receiver),
        receiver.context.state() == accompanies(receiver.context),
{
    law_fixed_values(receiver.context.dest_guid_prefix);
}

/// An entity submessage that is not meant for this participant is dropped, and
/// nothing else happens.
pub proof fn law_not_meant(receiver: ReceiverView, submessage: EntitySubmessageView)
    requires
        !is_meant(receiver),
    ensures
        receiver.after_entity(submessage) == (ReceiverView {
            effects: receiver.effects.push(
                EffectView::Dropped { dest_guid_prefix: receiver.context.dest_guid_prefix },
            ),
            ..receiver
        }),
{
    law_meant(receiver);
}

/// The receiver once the reader with this identifier, if there is one, has been
/// handed something to act on that is no change.
pub open spec fn with_event(
    receiver: ReceiverView,
    reader_id: EntityId,
    event: ReaderEventView,
) -> ReceiverView {
    if receiver.readers.contains_key(reader_id.value) {
        ReceiverView {
            effects: receiver.effects.push(EffectView::ToReader { reader_id, event }),
            ..receiver
        }
    } else {
        receiver
    }
}

/// A HEARTBEAT that names a reader is handed to it as it came, with a final
/// flag that is set if and only if the second bit of the flags is, and with
/// what goes with it. Nothing else happens.
pub proof fn law_heartbeat_for_one(
    receiver: ReceiverView,
    heartbeat: Heartbeat,
    flags: SubmessageFlags,
)
    requires
        is_meant(receiver),
        heartbeat.reader_id.value != 0,
    ensures
        receiver.after_entity(EntitySubmessageView::Heartbeat(heartbeat, flags)) == with_event(
            receiver,
            heartbeat.reader_id,
            ReaderEventView::Heartbeat {
                heartbeat,
                final_flag: flags.bits & 0x02 == 0x02,
                state: accompanies(receiver.context),
            },
        ),
{
    lemma_for_one(
        receiver,
        EntitySubmessageView::Heartbeat(heartbeat, flags),
        heartbeat.reader_id,
    );
}

/// A HEARTBEAT_FRAG that names a reader is handed to it as it came, with what
/// goes with it. Nothing else happens.
pub proof fn law_heartbeatfrag_for_one(
    receiver: ReceiverView,
    heartbeatfrag: HeartbeatFrag,
    flags: SubmessageFlags,
)
    requires
        is_meant(receiver),
        heartbeatfrag.reader_id.value != 0,
    ensures
        receiver.after_entity(EntitySubmessageView::HeartbeatFrag(heartbeatfrag, flags))
            == with_event(
            receiver,
            heartbeatfrag.reader_id,
            ReaderEventView::HeartbeatFrag { heartbeatfrag, state: accompanies(receiver.context) },
        ),
{
    lemma_for_one(
        receiver,
        EntitySubmessageView::HeartbeatFrag(heartbeatfrag, flags),
        heartbeatfrag.reader_id,
    );
}

/// A GAP is handed to the reader that it names as it came, with what goes with
/// it. Nothing else happens.
pub proof fn law_gap_for_one(receiver: ReceiverView, gap: Gap, flags: SubmessageFlags)
    requires
        is_meant(receiver),
    ensures
        receiver.after_entity(EntitySubmessageView::Gap(gap, flags)) == with_event(
            receiver,
            gap.reader_id,
            ReaderEventView::Gap { gap, state: accompanies(receiver.context) },
        ),
{
    lemma_for_one(receiver, EntitySubmessageView::Gap(gap, flags), gap.reader_id);
}

/// A DATA_FRAG is handed to the reader that it names as it came, with its flags
/// and what goes with it. Nothing else happens.
pub proof fn law_datafrag_for_one(
    receiver: ReceiverView,
    datafrag: DataFragView,
    flags: SubmessageFlags,
)
    requires
        is_meant(receiver),
    ensures
        receiver.after_entity(EntitySubmessageView::DataFrag(datafrag, flags)) == with_event(
            receiver,
            datafrag.reader_id,
            ReaderEventView::DataFrag { datafrag, flags, state: accompanies(receiver.context) },
        ),
{
    lemma_for_one(receiver, EntitySubmessageView::DataFrag(datafrag, flags), datafrag.reader_id);
}

proof fn lemma_for_one(
    receiver: ReceiverView,
    submessage: EntitySubmessageView,
    reader_id: EntityId,
)
    requires
        is_meant(receiver),
        match submessage {
            EntitySubmessageView::Heartbeat(heartbeat, _) => heartbeat.reader_id == reader_id
                && reader_id.value != 0,
            EntitySubmessageView::HeartbeatFrag(heartbeatfrag, _) => heartbeatfrag.reader_id
                == reader_id && reader_id.value != 0,
            EntitySubmessageView::Gap(gap, _) => gap.reader_id == reader_id,
            EntitySubmessageView::DataFrag(datafrag, _) => datafrag.reader_id == reader_id,
            _ => false,
        },
    ensures
        receiver.readers.contains_key(reader_id.value) ==> model::event_for(
            reader_id.value,
            receiver.readers[reader_id.value],
            submessage,
            receiver.context.state(),
        ) is Some,
        receiver.after_entity(submessage) == with_event(
            receiver,
            reader_id,
            model::event_for(
                reader_id.value,
                receiver.readers[reader_id.value],
                submessage,
                receiver.context.state(),
            )->0,
        ),
{
    law_meant(receiver);
    laws::law_named_reader_only(receiver, submessage, reader_id);
    let after = receiver.after_entity(submessage);
    let event = model::event_for(
        reader_id.value,
        receiver.readers[reader_id.value],
        submessage,
        receiver.context.state(),
    )->0;
    assert(after.readers =~= receiver.readers);
    assert(after.effects =~= with_event(receiver, reader_id, event).effects);
}

/// The change that DATA brings: who wrote it, under what number, when it was
/// sent, and its payload.
pub open spec fn change_of(context: ContextView, data: DataView) -> CacheChangeView {
    CacheChangeView {
        writer_guid: GUID { prefix: context.source_guid_prefix, entity_id: data.writer_id },
        sequence_number: data.writer_sn,
        source_timestamp: context.source_timestamp,
        data_value: data.serialized_payload,
    }
}

/// A DATA that names a reader is handed to it as it came, with its flags and
/// what goes with it, and the change that it brings is added to the history of
/// the reader. If it is an announcement of a participant, discovery is then
/// told, even if there is no such reader. Nothing else happens.
pub proof fn law_data_for_one(receiver: ReceiverView, data: DataView, flags: SubmessageFlags)
    requires
        is_meant(receiver),
        data.reader_id.value != 0,
    ensures
        ({
            let key = data.reader_id.value;
            let event = ReaderEventView::Data {
                data,
                flags,
                state: accompanies(receiver.context),
            };
            let source = receiver.context.source_guid_prefix;
            let delivered = with_event(receiver, data.reader_id, event);
            receiver.after_entity(EntitySubmessageView::Data(data, flags)) == (ReceiverView {
                readers: if receiver.readers.contains_key(key) {
                    receiver.readers.insert(
                        key,
                        ReaderView {
                            history: receiver.readers[key].history.push(
                                change_of(receiver.context, data),
                            ),
                            ..receiver.readers[key]
                        },
                    )
                } else {
                    receiver.readers
                },
                liveness: if data.writer_id.value == 0x0001_00c2 {
                    receiver.liveness.push(source)
                } else {
                    receiver.liveness
                },
                effects: if data.writer_id.value == 0x0001_00c2 {
                    delivered.effects.push(EffectView::ToDiscovery { source_guid_prefix: source })
                } else {
                    delivered.effects
                },
                ..receiver
            })
        }),
{
    let submessage = EntitySubmessageView::Data(data, flags);
    let key = data.reader_id.value;
    let source = receiver.context.source_guid_prefix;
    let event = ReaderEventView::Data { data, flags, state: accompanies(receiver.context) };
    law_meant(receiver);
    laws::law_named_reader_only(receiver, submessage, data.reader_id);
    let after = receiver.after_entity(submessage);
    let delivered = with_event(receiver, data.reader_id, event);
    if receiver.readers.contains_key(key) {
        assert(after.readers =~= receiver.readers.insert(
            key,
            ReaderView {
                history: receiver.readers[key].history.push(change_of(receiver.context, data)),
                ..receiver.readers[key]
            },
        ));
    }
    if data.writer_id.value == 0x0001_00c2 {
        assert(after.effects =~= delivered.effects.push(
            EffectView::ToDiscovery { source_guid_prefix: source },
        ));
    } else {
        assert(after.effects =~= delivered.effects);
    }
}

/// Whether one of the writers that the reader is matched with has this
/// identifier.
pub open spec fn is_matched(reader: ReaderView, writer_id: EntityId) -> bool {
    exists|i: int|
        0 <= i < reader.matched_writers.len() && (#[trigger] reader.matched_writers[i]).entity_id
            == writer_id
}

/// Whether a submessage that names no reader reaches this one: if it is matched
/// with the writer, or if the submessage is an announcement of a participant
/// and this is the reader that listens for those.
pub open spec fn listens(
    reader: ReaderView,
    submessage: EntitySubmessageView,
    writer_id: EntityId,
) -> bool {
    ||| is_matched(reader, writer_id)
    ||| submessage is Data && writer_id.value == 0x0001_00c2 && reader.guid.entity_id.value
        == 0x0001_00c7
}

/// What a reader is handed on a DATA, HEARTBEAT or HEARTBEAT_FRAG.
pub open spec fn event_of(
    context: ContextView,
    submessage: EntitySubmessageView,
) -> ReaderEventView {
    match submessage {
        EntitySubmessageView::Data(data, flags) => ReaderEventView::Data {
            data,
            flags,
            state: accompanies(context),
        },
        EntitySubmessageView::Heartbeat(heartbeat, flags) => ReaderEventView::Heartbeat {
            heartbeat,
            final_flag: flags.bits & 0x02 == 0x02,
            state: accompanies(context),
        },
        EntitySubmessageView::HeartbeatFrag(heartbeatfrag, _) => ReaderEventView::HeartbeatFrag {
            heartbeatfrag,
            state: accompanies(context),
        },
        _ => ReaderEventView::CacheChange,
    }
}

/// DATA, HEARTBEAT and HEARTBEAT_FRAG that name no reader are handed, as they
/// came and with what goes with them, to every reader that listens, once, in
/// ascending order of identifiers, and to no other. The history of a reader
/// grows by the change that DATA brings it, and no reader changes otherwise.
/// If it is an announcement of a participant, discovery is told at the end.
/// Nothing else happens.
#[verifier::spinoff_prover]
#[verifier::rlimit(40)]
pub proof fn law_for_all(
    receiver: ReceiverView,
    submessage: EntitySubmessageView,
    writer_id: EntityId,
)
    requires
        is_meant(receiver),
        match submessage {
            EntitySubmessageView::Data(data, _) => data.reader_id.value == 0 && data.writer_id
                == writer_id,
            EntitySubmessageView::Heartbeat(heartbeat, _) => heartbeat.reader_id.value == 0
                && heartbeat.writer_id == writer_id,
            EntitySubmessageView::HeartbeatFrag(heartbeatfrag, _) => heartbeatfrag.reader_id.value
                == 0 && heartbeatfrag.writer_id == writer_id,
            _ => false,
        },
    ensures
        ({
            let after = receiver.after_entity(submessage);
            let source = receiver.context.source_guid_prefix;
            let announces = submessage is Data && writer_id.value == 0x0001_00c2;
            let start = receiver.effects.len() as int;
            let end = if announces {
                after.effects.len() - 1
            } else {
                after.effects.len() as int
            };
            &&& after == (ReceiverView {
                readers: after.readers,
                liveness: if announces {
                    receiver.liveness.push(source)
                } else {
                    receiver.liveness
                },
                effects: after.effects,
                ..receiver
            })
            &&& after.readers.dom() == receiver.readers.dom()
            &&& forall|key: u32| #[trigger]
                receiver.readers.contains_key(key) ==> after.readers[key] == (ReaderView {
                    history: if submessage is Data && listens(
                        receiver.readers[key],
                        submessage,
                        writer_id,
                    ) {
                        receiver.readers[key].history.push(
                            change_of(receiver.context, submessage->Data_0),
                        )
                    } else {
                        receiver.readers[key].history
                    },
                    ..receiver.readers[key]
                })
            &&& start <= end
            &&& receiver.effects.is_prefix_of(after.effects)
            &&& announces ==> after.effects.last() == (EffectView::ToDiscovery {
                source_guid_prefix: source,
            })
            &&& forall|i: int|
                start <= i < end ==> {
                    let key = after.effects[i]->reader_id.value;
                    &&& (#[trigger] after.effects[i]) == (EffectView::ToReader {
                        reader_id: EntityId { value: key },
                        event: event_of(receiver.context, submessage),
                    })
                    &&& receiver.readers.contains_key(key)
                    &&& listens(receiver.readers[key], submessage, writer_id)
                }
            &&& forall|i: int, j: int|
                start <= i < j < end ==> (#[trigger] after.effects[i])->reader_id.value < (
                #[trigger] after.effects[j])->reader_id.value
            &&& forall|key: u32| #[trigger]
                receiver.readers.contains_key(key) && listens(
                    receiver.readers[key],
                    submessage,
                    writer_id,
                ) ==> exists|i: int|
                    start <= i < end && (#[trigger] after.effects[i])->reader_id.value == key
        }),
{
    law_meant(receiver);
    laws::law_readers_are_served_in_order(receiver, submessage);
    let after = receiver.after_entity(submessage);
    let source = receiver.context.source_guid_prefix;
    let state = receiver.context.state();
    let announces = submessage is Data && writer_id.value == 0x0001_00c2;
    let start = receiver.effects.len() as int;
    let end = if announces {
        after.effects.len() - 1
    } else {
        after.effects.len() as int
    };
    let new = after.effects.skip(start);
    let handed = model::handed_to_readers(receiver.readers, submessage, state);
    assert(after.effects.len() == start + handed.len() + if announces {
        1int
    } else {
        0int
    });
    assert(after.readers.dom() =~= receiver.readers.dom());
    assert forall|i: int| start <= i < end implies {
        let key = after.effects[i]->reader_id.value;
        &&& (#[trigger] after.effects[i]) == (EffectView::ToReader {
            reader_id: EntityId { value: key },
            event: event_of(receiver.context, submessage),
        })
        &&& receiver.readers.contains_key(key)
        &&& listens(receiver.readers[key], submessage, writer_id)
    } by {
        let effect = after.effects[i];
        let key = effect->reader_id.value;
        assert(effect == handed[i - start]);
        order::lemma_in_order(receiver.readers.dom());
        laws::lemma_handed_to(
            order::in_order(receiver.readers.dom()),
            receiver.readers,
            submessage,
            state,
        );
        assert(effect is ToReader);
        assert(effect == model::to_reader(key, effect->event));
        assert(new[i - start] == effect);
        assert(new.contains(model::to_reader(key, effect->event)));
    }
    assert forall|key: u32| #[trigger]
        receiver.readers.contains_key(key) && listens(
            receiver.readers[key],
            submessage,
            writer_id,
        ) implies exists|i: int|
        start <= i < end && (#[trigger] after.effects[i])->reader_id.value == key by {
        let effect = model::to_reader(key, event_of(receiver.context, submessage));
        assert(new.contains(effect));
        let i = new.index_of(effect);
        assert(after.effects[start + i] == effect);
    }
}

/// An acknowledgement that is meant for this participant is handed to the
/// local writers, and an announcement of a participant to discovery, each under
/// who sent it. No other entity submessage goes to a channel.
pub proof fn law_channels(receiver: ReceiverView, submessage: EntitySubmessageView)
    ensures
        ({
            let after = receiver.after_entity(submessage);
            let source = receiver.context.source_guid_prefix;
            &&& after.acknacks == match submessage {
                EntitySubmessageView::AckNack(acknack, _) if is_meant(receiver) =>
                    receiver.acknacks.push((source, AckSubmessage::AckNack(acknack))),
                _ => receiver.acknacks,
            }
            &&& after.liveness == match submessage {
                EntitySubmessageView::Data(data, _) if is_meant(receiver)
                    && data.writer_id.value == 0x0001_00c2 => receiver.liveness.push(source),
                _ => receiver.liveness,
            }
        }),
{
    law_meant(receiver);
}

/// Each interpreter submessage sets what it is about, and nothing else: INFO_TS
/// the time; INFO_DST whom the message is for, which is the receiver itself if
/// it names nobody; INFO_REPLY where replies go, with no multicast locators
/// unless the second bit of its flags is set; and INFO_SRC who sent it, which
/// clears the time and where replies go.
pub proof fn law_interpretation(
    receiver: ReceiverView,
    flags: SubmessageFlags,
    time: InfoTimestamp,
    destination: InfoDestination,
    reply: InfoReplyView,
    source: InfoSource,
)
    ensures
        receiver.after_interpreter(InterpreterSubmessageView::InfoTimestamp(time, flags)) == (
        ReceiverView {
            context: ContextView { source_timestamp: time.timestamp, ..receiver.context },
            ..receiver
        }),
        receiver.after_interpreter(InterpreterSubmessageView::InfoDestination(destination, flags))
            == (ReceiverView {
            context: ContextView {
                dest_guid_prefix: if names_nobody(destination.guid_prefix) {
                    receiver.own_guid_prefix
                } else {
                    destination.guid_prefix
                },
                ..receiver.context
            },
            ..receiver
        }),
        flags.bits & 0x02 != 0x02 ==> receiver.after_interpreter(
            InterpreterSubmessageView::InfoReply(reply, flags),
        ) == (ReceiverView {
            context: ContextView {
                unicast_reply_locator_list: reply.unicast_locator_list,
                multicast_reply_locator_list: seq![],
                ..receiver.context
            },
            ..receiver
        }),
        flags.bits & 0x02 == 0x02 && reply.multicast_locator_list is Some
            ==> receiver.after_interpreter(InterpreterSubmessageView::InfoReply(reply, flags)) == (
        ReceiverView {
            context: ContextView {
                unicast_reply_locator_list: reply.unicast_locator_list,
                multicast_reply_locator_list: reply.multicast_locator_list->0,
                ..receiver.context
            },
            ..receiver
        }),
        receiver.after_interpreter(InterpreterSubmessageView::InfoSource(source, flags)) == (
        ReceiverView {
            context: ContextView {
                source_version: source.protocol_version,
                source_vendor_id: source.vendor_id,
                source_guid_prefix: source.guid_prefix,
                dest_guid_prefix: receiver.context.dest_guid_prefix,
                unicast_reply_locator_list: seq![],
                multicast_reply_locator_list: seq![],
                source_timestamp: None,
            },
            ..receiver
        }),
{
    law_fixed_values(destination.guid_prefix);
}

/// A message with no submessages leaves the receiver knowing who sent it, and
/// that it is for the receiver itself. With one more submessage, the message
/// does what that submessage does after the others, and counts one more.
pub proof fn law_message_step(
    receiver: ReceiverView,
    header: Header,
    before: Seq<SubmessageBodyView>,
    entity: EntitySubmessageView,
    interpreter: InterpreterSubmessageView,
)
    ensures
        receiver.after_message(MessageView { header, submessages: seq![] }) == (ReceiverView {
            context: ContextView {
                source_version: ProtocolVersion { major: 2, minor: 3 },
                source_vendor_id: VendorId { vendor_id: [0u8, 0u8] },
                source_guid_prefix: header.guid_prefix,
                dest_guid_prefix: receiver.own_guid_prefix,
                unicast_reply_locator_list: seq![],
                multicast_reply_locator_list: seq![],
                source_timestamp: None,
            },
            submessage_count: 0,
            ..receiver
        }),
        ({
            let earlier = receiver.after_message(MessageView { header, submessages: before });
            let next = earlier.after_entity(entity);
            let other = earlier.after_interpreter(interpreter);
            &&& receiver.after_message(
                MessageView {
                    header,
                    submessages: before.push(SubmessageBodyView::Entity(entity)),
                },
            ) == (ReceiverView { submessage_count: earlier.submessage_count + 1, ..next })
            &&& receiver.after_message(
                MessageView {
                    header,
                    submessages: before.push(SubmessageBodyView::Interpreter(interpreter)),
                },
            ) == (ReceiverView { submessage_count: earlier.submessage_count + 1, ..other })
        }),
{
    assert(before.push(SubmessageBodyView::Entity(entity)).drop_last() =~= before);
    assert(before.push(SubmessageBodyView::Interpreter(interpreter)).drop_last() =~= before);
}

/// A receiver that is reset knows nothing of a sender or of whom a message is
/// for, and has counted nothing. What has been handed over stays.
pub proof fn law_reset(receiver: ReceiverView)
    ensures
        ({
            let after = receiver.cleared();
            &&& names_nobody(after.context.source_guid_prefix)
            &&& names_nobody(after.context.dest_guid_prefix)
            &&& after == (ReceiverView {
                context: ContextView {
                    source_version: ProtocolVersion { major: 2, minor: 3 },
                    source_vendor_id: VendorId { vendor_id: [0u8, 0u8] },
                    source_guid_prefix: after.context.source_guid_prefix,
                    dest_guid_prefix: after.context.dest_guid_prefix,
                    unicast_reply_locator_list: seq![],
                    multicast_reply_locator_list: seq![],
                    source_timestamp: None,
                },
                submessage_count: 0,
                ..receiver
            })
            &&& ContextView::cleared() == after.context
        }),
{
    law_fixed_values(receiver.cleared().context.source_guid_prefix);
}

/// A reader is registered under the number of its entity identifier if there is
/// none yet, and the one under an identifier can be taken away. Nothing else
/// changes.
pub proof fn law_registration(receiver: ReceiverView, reader: ReaderView, id: EntityId)
    ensures
        receiver.readers.contains_key(reader.guid.entity_id.value) ==> receiver.with_reader(reader)
            == receiver,
        !receiver.readers.contains_key(reader.guid.entity_id.value) ==> receiver.with_reader(reader)
            == (ReceiverView {
            readers: receiver.readers.insert(reader.guid.entity_id.value, reader),
            ..receiver
        }),
        receiver.without_reader(id) == (ReceiverView {
            readers: receiver.readers.remove(id.value),
            ..receiver
        }),
        receiver.wf() <==> forall|key: u32| #[trigger]
            receiver.readers.contains_key(key) ==> receiver.readers[key].guid.entity_id.value
                == key,
{
}

/// A reader is matched with a writer once a writer with that identifier has
/// been added to those it is matched with, and not before.
pub proof fn law_matched(reader: ReaderView, writer: GUID, id: EntityId)
    ensures
        reader.matched_writers.len() == 0 ==> !reader.contains_writer(id),
        (ReaderView {
            matched_writers: reader.matched_writers.push(writer),
            ..reader
        }).contains_writer(id) <==> writer.entity_id == id || reader.contains_writer(id),
        reader.contains_writer(id) <==> is_matched(reader, id),
{
    let more = ReaderView { matched_writers: reader.matched_writers.push(writer), ..reader };
    if reader.contains_writer(id) {
        let i = choose|i: int|
            0 <= i < reader.matched_writers.len() && (
            #[trigger] reader.matched_writers[i]).entity_id == id;
        assert(more.matched_writers[i].entity_id == id);
    }
    if writer.entity_id == id {
        assert(more.matched_writers[reader.matched_writers.len() as int].entity_id == id);
    }
    if more.contains_writer(id) && writer.entity_id != id {
        let i = choose|i: int|
            0 <= i < more.matched_writers.len() && (#[trigger] more.matched_writers[i]).entity_id
                == id;
        assert(reader.matched_writers[i].entity_id == id);
    }
}

/// The change that is looked up by a number is one that the reader has been
/// handed, has that number, and comes before all others that do. None is found
/// only if none has it.
pub proof fn law_lookup(history: Seq<CacheChangeView>, number: SequenceNumber)
    ensures
        match reader::first_change(history, number) {
            Some(change) => exists|i: int|
                {
                    &&& 0 <= i < history.len()
                    &&& (#[trigger] history[i]) == change
                    &&& change.sequence_number == number
                    &&& forall|j: int|
                        0 <= j < i ==> (#[trigger] history[j]).sequence_number != number
                },
            None => forall|j: int|
                0 <= j < history.len() ==> (#[trigger] history[j]).sequence_number != number,
        },
    decreases history.len(),
{
    if history.len() > 0 {
        let front = history.drop_last();
        law_lookup(front, number);
        assert(forall|j: int| 0 <= j < front.len() ==> #[trigger] front[j] == history[j]);
        match reader::first_change(front, number) {
            Some(change) => {
                let i = choose|i: int|
                    {
                        &&& 0 <= i < front.len()
                        &&& (#[trigger] front[i]) == change
                        &&& change.sequence_number == number
                        &&& forall|j: int|
                            0 <= j < i ==> (#[trigger] front[j]).sequence_number != number
                    };
                assert(history[i] == change);
                assert forall|j: int| 0 <= j < i implies (
                #[trigger] history[j]).sequence_number != number by {
                    assert(front[j].sequence_number != number);
                }
            },
            None => {
                let last = history.len() - 1;
                assert forall|j: int| 0 <= j < last implies (
                #[trigger] history[j]).sequence_number != number by {
                    assert(front[j].sequence_number != number);
                }
                assert(history[last] == history.last());
            },
        }
    }
}

/// The range of a history is nothing if the history is empty. Otherwise it is
/// the lowest and the highest number in it: both occur, and no number lies
/// outside. So there is only one.
pub proof fn law_range(
    history: Seq<CacheChangeView>,
    ends: Seq<SequenceNumber>,
    others: Seq<SequenceNumber>,
    i: int,
)
    requires
        reader::spans(history, ends),
    ensures
        history.len() == 0 <==> ends.len() == 0,
        0 <= i < history.len() ==> {
            &&& ends.len() == 2
            &&& ends[0].value <= history[i].sequence_number.value <= ends[1].value
            &&& exists|j: int|
                0 <= j < history.len() && (#[trigger] history[j]).sequence_number == ends[0]
            &&& exists|j: int|
                0 <= j < history.len() && (#[trigger] history[j]).sequence_number == ends[1]
        },
        reader::spans(history, others) ==> others == ends,
{
    if reader::spans(history, others) {
        assert(others =~= ends);
    }
}

/// What brings a change and what does not: the history grows by the change that
/// DATA brings, and by nothing else.
pub proof fn law_history(
    reader: ReaderView,
    event: ReaderEventView,
    data: DataView,
    flags: SubmessageFlags,
    context: ContextView,
)
    ensures
        event !is Data ==> reader.handed(event) == reader,
        reader.handed(ReaderEventView::Data { data, flags, state: accompanies(context) }) == (
        ReaderView { history: reader.history.push(change_of(context, data)), ..reader }),
{
}

/// What readers are told goes to the reader with that number: the notice that
/// there is something new, and the order to send acknowledgements.
pub proof fn law_told(key: u32, event: ReaderEventView, readers: Map<u32, ReaderView>, id: EntityId)
    ensures
        model::to_reader(key, event) == (EffectView::ToReader {
            reader_id: EntityId { value: key },
            event,
        }),
        model::preemptive_acknacks(key) == (EffectView::ToReader {
            reader_id: EntityId { value: key },
            event: ReaderEventView::PreemptiveAckNacks,
        }),
        model::notices(readers, seq![id]) == if readers.contains_key(id.value) {
            seq![EffectView::ToReader { reader_id: id, event: ReaderEventView::CacheChange }]
        } else {
            seq![]
        },
{
    assert(seq![id].drop_last() =~= seq![]);
    assert(model::notices(readers, seq![id].drop_last()) =~= seq![]);
    assert(model::notices(readers, seq![id]) =~= if readers.contains_key(id.value) {
        seq![EffectView::ToReader { reader_id: id, event: ReaderEventView::CacheChange }]
    } else {
        seq![]
    });
}

/// Only an INFO_REPLY can be broken: if the second bit of its flags is set and
/// it has no multicast locators. A message is broken if one of its submessages
/// is.
pub proof fn law_broken(message: MessageView, submessage: SubmessageBodyView)
    ensures
        submessage.wf() <==> match submessage {
            SubmessageBodyView::Interpreter(InterpreterSubmessageView::InfoReply(reply, flags)) =>
                flags.bits & 0x02 != 0x02 || reply.multicast_locator_list is Some,
            _ => true,
        },
        message.wf() <==> forall|i: int|
            0 <= i < message.submessages.len() ==> (#[trigger] message.submessages[i]).wf(),
{
}

/// What the effects say that the channels have answered is all their answers,
/// in order, each from the effect that tells of it.
pub proof fn law_answers(effects: Seq<Effect>, effect: Effect, receiver: MessageReceiver)
    ensures
        effect::writers_answers(seq![]) == Seq::<SendAnswer>::empty(),
        effect::discovery_answers(seq![]) == Seq::<SendAnswer>::empty(),
        effect::writers_answers(effects.push(effect)) == match effect {
            Effect::ToWriters { answer, .. } => effect::writers_answers(effects).push(answer),
            _ => effect::writers_answers(effects),
        },
        effect::discovery_answers(effects.push(effect)) == match effect {
            Effect::ToDiscovery { answer, .. } => effect::discovery_answers(effects).push(answer),
            _ => effect::discovery_answers(effects),
        },
        receiver.reports_answers() <==> {
            &&& effect::writers_answers(receiver.effects@).is_suffix_of(
                receiver.acknack_sender.answers(),
            )
            &&& effect::discovery_answers(receiver.effects@).is_suffix_of(
                receiver.spdp_liveness_sender.answers(),
            )
        },
{
    assert(effects.push(effect).drop_last() =~= effects);
}

/// A packet that is a header, an INFO_TS and a DATA for a local reader hands
/// that reader the DATA with all of its payload, under the sender in the header
/// and with the time in the INFO_TS, and adds the change to its history.
#[verifier::spinoff_prover]
#[verifier::rlimit(40)]
pub proof fn law_timed_data_packet(
    receiver: ReceiverView,
    header: Header,
    time: Timestamp,
    time_flags: SubmessageFlags,
    data: DataView,
    flags: SubmessageFlags,
    further: Seq<u8>,
)
    requires
        time_flags.bits & 0x02 != 0x02,
        flags.bits & 0x02 != 0x02,
        flags.bits & 0x04 == 0x04 || flags.bits & 0x08 == 0x08,
        data.inline_qos is None,
        data.serialized_payload is Some,
        data.serialized_payload->0.value.len() <= 65511,
        data.writer_id.value != 0x0001_00c2,
        data.reader_id.value != 0,
        receiver.readers.contains_key(data.reader_id.value),
        further.len() == 2,
    ensures
        ({
            let little = encoding::is_little(time_flags);
            let time_octets = encoding::u32_octets(time.seconds, little) + encoding::u32_octets(
                time.fraction,
                little,
            );
            let data_octets = encoding::data_fields_octets(
                data,
                further,
                seq![],
                encoding::is_little(flags),
            ) + encoding::payload_octets(data.serialized_payload->0);
            let after = receiver.after_packet(
                header.octets() + (encoding::submessage_octets(0x09, time_flags, time_octets)
                    + encoding::submessage_octets(0x15, flags, data_octets)),
            );
            &&& after.effects == receiver.effects.push(
                EffectView::ToReader {
                    reader_id: data.reader_id,
                    event: ReaderEventView::Data {
                        data,
                        flags,
                        state: MessageReceiverStateView {
                            source_guid_prefix: header.guid_prefix,
                            unicast_reply_locator_list: seq![],
                            multicast_reply_locator_list: seq![],
                            source_timestamp: Some(time),
                        },
                    },
                },
            )
            &&& after.readers[data.reader_id.value].history
                == receiver.readers[data.reader_id.value].history.push(
                CacheChangeView {
                    writer_guid: GUID { prefix: header.guid_prefix, entity_id: data.writer_id },
                    sequence_number: data.writer_sn,
                    source_timestamp: Some(time),
                    data_value: data.serialized_payload,
                },
            )
            &&& after.submessage_count == 2
        }),
{
    broadcast use encoding::group_lengths;

    let little = encoding::is_little(time_flags);
    let time_octets = encoding::u32_octets(time.seconds, little) + encoding::u32_octets(
        time.fraction,
        little,
    );
    let payload = data.serialized_payload->0;
    let data_octets = encoding::data_fields_octets(
        data,
        further,
        seq![],
        encoding::is_little(flags),
    ) + encoding::payload_octets(payload);
    let last = encoding::submessage_octets(0x15, flags, data_octets);
    let both = encoding::submessage_octets(0x09, time_flags, time_octets) + last;
    let info = InterpreterSubmessageView::InfoTimestamp(
        InfoTimestamp { timestamp: Some(time) },
        time_flags,
    );
    let entity = EntitySubmessageView::Data(data, flags);

    reading_laws::law_info_timestamp(time, time_flags, seq![], 0);
    assert(time_octets + seq![] =~= time_octets);
    reading_laws::law_kinds(time_flags, time_octets, 0);
    reading_laws::law_data(data, seq![], 0, further, seq![], flags, seq![]);
    reading_laws::law_kinds(flags, data_octets, 0);
    reading_laws::law_submessages(0x15, flags, data_octets, seq![]);
    assert(last + seq![] =~= last);
    reading_laws::law_submessages(0x09, time_flags, time_octets, last);
    reading_laws::law_message(seq![], header, both);
    let first = seq![SubmessageBodyView::Interpreter(info)];
    let submessages = first.push(SubmessageBodyView::Entity(entity));
    assert(seq![SubmessageBodyView::Entity(entity)] + seq![] =~= seq![
        SubmessageBodyView::Entity(entity),
    ]);
    assert(first + seq![SubmessageBodyView::Entity(entity)] =~= submessages);
    assert(message::message_of(header.octets() + both) == Ok::<MessageView, ReadError>(
        MessageView { header, submessages },
    ));
    laws::law_only_messages_count(receiver, header.octets() + both);

    law_message_step(receiver, header, seq![], entity, info);
    assert(seq![].push(SubmessageBodyView::Interpreter(info)) =~= first);
    law_message_step(receiver, header, first, entity, info);
    let earlier = receiver.after_message(MessageView { header, submessages: first });
    assert(is_meant(earlier));
    law_data_for_one(earlier, data, flags);
}

/// The view of a receiver hides nothing of it.
pub proof fn law_receiver_view(r: MessageReceiver, key: u32, i: int)
    ensures
        r@.own_guid_prefix == r.own_guid_prefix,
        r@.context == (ContextView {
            source_version: r.source_version,
            source_vendor_id: r.source_vendor_id,
            source_guid_prefix: r.source_guid_prefix,
            dest_guid_prefix: r.dest_guid_prefix,
            unicast_reply_locator_list: r.unicast_reply_locator_list@,
            multicast_reply_locator_list: r.multicast_reply_locator_list@,
            source_timestamp: r.source_timestamp,
        }),
        r@.submessage_count == r.submessage_count,
        r@.readers.contains_key(key) <==> r.available_readers@.contains_key(key),
        r@.readers.contains_key(key) ==> r@.readers[key] == r.available_readers@[key]@,
        r@.acknacks == r.acknack_sender.handed(),
        r@.liveness == r.spdp_liveness_sender.handed(),
        r@.effects.len() == r.effects.len(),
        0 <= i < r.effects.len() ==> r@.effects[i] == r.effects@[i]@,
{
}

/// The views of readers, of changes and of what readers are handed hide nothing
/// of them.
pub proof fn law_reader_views(
    r: Reader,
    change: CacheChange,
    sample: DDSData,
    state: MessageReceiverState,
    event: ReaderEvent,
    i: int,
)
    ensures
        r@.guid == r.guid,
        r@.matched_writers == r.matched_writers@,
        r@.history.len() == r.history.len(),
        0 <= i < r.history.len() ==> r@.history[i] == r.history@[i]@,
        change@.writer_guid == change.writer_guid,
        change@.sequence_number == change.sequence_number,
        change@.source_timestamp == change.source_timestamp,
        change@.data_value == change.data_value@,
        sample@ is Some <==> sample.serialized_payload is Some,
        sample@ is Some ==> sample@->0 == sample.serialized_payload->0@,
        state@ == (MessageReceiverStateView {
            source_guid_prefix: state.source_guid_prefix,
            unicast_reply_locator_list: state.unicast_reply_locator_list@,
            multicast_reply_locator_list: state.multicast_reply_locator_list@,
            source_timestamp: state.source_timestamp,
        }),
        event@ == match event {
            ReaderEvent::Data { data, flags, state } => ReaderEventView::Data {
                data: data@,
                flags,
                state: state@,
            },
            ReaderEvent::DataFrag { datafrag, flags, state } => ReaderEventView::DataFrag {
                datafrag: datafrag@,
                flags,
                state: state@,
            },
            ReaderEvent::Gap { gap, state } => ReaderEventView::Gap { gap, state: state@ },
            ReaderEvent::Heartbeat { heartbeat, final_flag, state } => ReaderEventView::Heartbeat {
                heartbeat,
                final_flag,
                state: state@,
            },
            ReaderEvent::HeartbeatFrag { heartbeatfrag, state } => {
                ReaderEventView::HeartbeatFrag { heartbeatfrag, state: state@ }
            },
            ReaderEvent::CacheChange => ReaderEventView::CacheChange,
            ReaderEvent::PreemptiveAckNacks => ReaderEventView::PreemptiveAckNacks,
        },
{
}

/// The views of messages and submessages hide nothing of them.
pub proof fn law_message_views(
    m: Message,
    i: int,
    submessage: Submessage,
    entity: EntitySubmessage,
    interpreter: InterpreterSubmessage,
    reply: InfoReply,
)
    ensures
        m@.header == m.header,
        m@.submessages.len() == m.submessages.len(),
        0 <= i < m.submessages.len() ==> m@.submessages[i] == m.submessages@[i]@,
        submessage@ == match submessage.body {
            SubmessageBody::Entity(e) => SubmessageBodyView::Entity(e@),
            SubmessageBody::Interpreter(x) => SubmessageBodyView::Interpreter(x@),
        },
        entity@ == match entity {
            EntitySubmessage::AckNack(x, f) => EntitySubmessageView::AckNack(x, f),
            EntitySubmessage::Data(x, f) => EntitySubmessageView::Data(x@, f),
            EntitySubmessage::DataFrag(x, f) => EntitySubmessageView::DataFrag(x@, f),
            EntitySubmessage::Gap(x, f) => EntitySubmessageView::Gap(x, f),
            EntitySubmessage::Heartbeat(x, f) => EntitySubmessageView::Heartbeat(x, f),
            EntitySubmessage::HeartbeatFrag(x, f) => EntitySubmessageView::HeartbeatFrag(x, f),
            EntitySubmessage::NackFrag(x, f) => EntitySubmessageView::NackFrag(x, f),
        },
        interpreter@ == match interpreter {
            InterpreterSubmessage::InfoSource(x, f) => InterpreterSubmessageView::InfoSource(x, f),
            InterpreterSubmessage::InfoDestination(x, f) => {
                InterpreterSubmessageView::InfoDestination(x, f)
            },
            InterpreterSubmessage::InfoReply(x, f) => InterpreterSubmessageView::InfoReply(x@, f),
            InterpreterSubmessage::InfoTimestamp(x, f) => {
                InterpreterSubmessageView::InfoTimestamp(x, f)
            },
        },
        reply@.unicast_locator_list == reply.unicast_locator_list@,
        reply@.multicast_locator_list is Some <==> reply.multicast_locator_list is Some,
        reply@.multicast_locator_list is Some ==> reply@.multicast_locator_list->0
            == reply.multicast_locator_list->0@,
{
}

/// The views of data and of payloads hide nothing of them, and that of an
/// effect only what a channel has answered.
pub proof fn law_data_views(d: Data, f: DataFrag, p: SerializedPayload, e: Effect)
    ensures
        d@.reader_id == d.reader_id,
        d@.writer_id == d.writer_id,
        d@.writer_sn == d.writer_sn,
        d@.inline_qos is Some <==> d.inline_qos is Some,
        d@.inline_qos is Some ==> d@.inline_qos->0 == d.inline_qos->0@,
        d@.serialized_payload is Some <==> d.serialized_payload is Some,
        d@.serialized_payload is Some ==> d@.serialized_payload->0 == d.serialized_payload->0@,
        f@.reader_id == f.reader_id,
        f@.writer_id == f.writer_id,
        f@.writer_sn == f.writer_sn,
        f@.fragment_starting_num == f.fragment_starting_num,
        f@.fragments_in_submessage == f.fragments_in_submessage,
        f@.fragment_size == f.fragment_size,
        f@.data_size == f.data_size,
        f@.inline_qos is Some <==> f.inline_qos is Some,
        f@.inline_qos is Some ==> f@.inline_qos->0 == f.inline_qos->0@,
        f@.serialized_payload == f.serialized_payload@,
        p@.representation_identifier == p.representation_identifier,
        p@.representation_options == p.representation_options,
        p@.value == p.value@,
        e@ == match e {
            Effect::ToReader { reader_id, event } => EffectView::ToReader {
                reader_id,
                event: event@,
            },
            Effect::ToWriters { source_guid_prefix, acknack, .. } => EffectView::ToWriters {
                source_guid_prefix,
                acknack,
            },
            Effect::ToDiscovery { source_guid_prefix, .. } => EffectView::ToDiscovery {
                source_guid_prefix,
            },
            Effect::Dropped { dest_guid_prefix } => EffectView::Dropped { dest_guid_prefix },
        },
{
}

} // verus!
