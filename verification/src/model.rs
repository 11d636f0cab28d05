//! What a message does to a receiver, in mathematical terms.
use vstd::prelude::*;

use crate::effect::EffectView;
use crate::elements::Locator;
use crate::elements::ProtocolVersion;
use crate::elements::Timestamp;
use crate::elements::VendorId;
use crate::guid::EntityId;
use crate::guid::GuidPrefix;
use crate::header::Header;
use crate::message;
use crate::message_receiver::MessageReceiverStateView;
use crate::order;
use crate::reader::ReaderEventView;
use crate::reader::ReaderView;
use crate::submessages::AckSubmessage;
use crate::submessages::EntitySubmessageView;
use crate::submessages::HEARTBEAT_FLAG_FINAL;
use crate::submessages::INFOREPLY_FLAG_MULTICAST;
use crate::submessages::InterpreterSubmessageView;
use crate::submessages::SubmessageBodyView;

verus! {

/// A message: its header, and its submessages in order.
pub struct MessageView {
    pub header: Header,
    pub submessages: Seq<SubmessageBodyView>,
}

impl MessageView {
    /// Every submessage holds what its flags promise.
    pub open spec fn wf(self) -> bool {
        forall|i: int| 0 <= i < self.submessages.len() ==> (#[trigger] self.submessages[i]).wf()
    }
}

/// How the next entity submessage of the current message is to be taken.
pub struct ContextView {
    pub source_version: ProtocolVersion,
    pub source_vendor_id: VendorId,
    pub source_guid_prefix: GuidPrefix,
    pub dest_guid_prefix: GuidPrefix,
    pub unicast_reply_locator_list: Seq<Locator>,
    pub multicast_reply_locator_list: Seq<Locator>,
    pub source_timestamp: Option<Timestamp>,
}

impl ContextView {
    /// Nothing is known of the sender, nor of whom it addresses.
    pub open spec fn cleared() -> ContextView {
        ContextView {
            source_version: ProtocolVersion::this_implementation(),
            source_vendor_id: VendorId::vendor_unknown(),
            source_guid_prefix: GuidPrefix::unknown(),
            dest_guid_prefix: GuidPrefix::unknown(),
            unicast_reply_locator_list: seq![],
            multicast_reply_locator_list: seq![],
            source_timestamp: None,
        }
    }

    /// At the start of a message from `source`, received by `own`.
    pub open spec fn start(own: GuidPrefix, source: GuidPrefix) -> ContextView {
        ContextView {
            source_guid_prefix: source,
            dest_guid_prefix: own,
            ..ContextView::cleared()
        }
    }

    /// After an interpreter submessage.
    pub open spec fn interpret(
        self,
        own: GuidPrefix,
        submessage: InterpreterSubmessageView,
    ) -> ContextView {
        match submessage {
            InterpreterSubmessageView::InfoTimestamp(info, _) => ContextView {
                source_timestamp: info.timestamp,
                ..self
            },
            InterpreterSubmessageView::InfoSource(info, _) => ContextView {
                source_guid_prefix: info.guid_prefix,
                source_version: info.protocol_version,
                source_vendor_id: info.vendor_id,
                dest_guid_prefix: self.dest_guid_prefix,
                unicast_reply_locator_list: seq![],
                multicast_reply_locator_list: seq![],
                source_timestamp: None,
            },
            InterpreterSubmessageView::InfoReply(info, flags) => ContextView {
                unicast_reply_locator_list: info.unicast_locator_list,
                multicast_reply_locator_list: if flags.contains(INFOREPLY_FLAG_MULTICAST) {
                    info.multicast_locator_list->0
                } else {
                    seq![]
                },
                ..self
            },
            InterpreterSubmessageView::InfoDestination(info, _) => ContextView {
                dest_guid_prefix: if info.guid_prefix == GuidPrefix::unknown() {
                    own
                } else {
                    info.guid_prefix
                },
                ..self
            },
        }
    }

    /// Whether entity submessages are now meant for the participant `own`.
    pub open spec fn is_for(self, own: GuidPrefix) -> bool {
        self.dest_guid_prefix == own || self.dest_guid_prefix == GuidPrefix::unknown()
    }

    /// What the readers get to know of it.
    pub open spec fn state(self) -> MessageReceiverStateView {
        MessageReceiverStateView {
            source_guid_prefix: self.source_guid_prefix,
            unicast_reply_locator_list: self.unicast_reply_locator_list,
            multicast_reply_locator_list: self.multicast_reply_locator_list,
            source_timestamp: self.source_timestamp,
        }
    }
}

/// Whether a submessage from `writer_id` to `reader_id` reaches the reader
/// registered as `key`. One that names no reader is for all readers that are
/// matched with the writer.
pub open spec fn reaches(
    key: u32,
    reader: ReaderView,
    reader_id: EntityId,
    writer_id: EntityId,
) -> bool {
    if reader_id == EntityId::unknown() {
        reader.contains_writer(writer_id)
    } else {
        key == reader_id.value
    }
}

/// Whether an announcement of a participant reaches the reader: the one that
/// listens for announcements takes them from writers it does not know.
pub open spec fn reaches_as_announcement(
    reader: ReaderView,
    reader_id: EntityId,
    writer_id: EntityId,
) -> bool {
    &&& reader_id == EntityId::unknown()
    &&& writer_id == EntityId::spdp_builtin_participant_writer()
    &&& reader.guid.entity_id == EntityId::spdp_builtin_participant_reader()
}

/// What the reader registered as `key` is handed on an entity submessage.
pub open spec fn event_for(
    key: u32,
    reader: ReaderView,
    submessage: EntitySubmessageView,
    state: MessageReceiverStateView,
) -> Option<ReaderEventView> {
    match submessage {
        EntitySubmessageView::Data(data, flags) => {
            if reaches(key, reader, data.reader_id, data.writer_id) || reaches_as_announcement(
                reader,
                data.reader_id,
                data.writer_id,
            ) {
                Some(ReaderEventView::Data { data, flags, state })
            } else {
                None
            }
        },
        EntitySubmessageView::Heartbeat(heartbeat, flags) => {
            if reaches(key, reader, heartbeat.reader_id, heartbeat.writer_id) {
                Some(
                    ReaderEventView::Heartbeat {
                        heartbeat,
                        final_flag: flags.contains(HEARTBEAT_FLAG_FINAL),
                        state,
                    },
                )
            } else {
                None
            }
        },
        EntitySubmessageView::HeartbeatFrag(heartbeatfrag, _) => {
            if reaches(key, reader, heartbeatfrag.reader_id, heartbeatfrag.writer_id) {
                Some(ReaderEventView::HeartbeatFrag { heartbeatfrag, state })
            } else {
                None
            }
        },
        EntitySubmessageView::Gap(gap, _) => {
            if key == gap.reader_id.value {
                Some(ReaderEventView::Gap { gap, state })
            } else {
                None
            }
        },
        EntitySubmessageView::DataFrag(datafrag, flags) => {
            if key == datafrag.reader_id.value {
                Some(ReaderEventView::DataFrag { datafrag, flags, state })
            } else {
                None
            }
        },
        EntitySubmessageView::AckNack(_, _) => None,
        EntitySubmessageView::NackFrag(_, _) => None,
    }
}

/// The reader registered as `key` after an entity submessage.
pub open spec fn reader_after(
    key: u32,
    reader: ReaderView,
    submessage: EntitySubmessageView,
    state: MessageReceiverStateView,
) -> ReaderView {
    match event_for(key, reader, submessage, state) {
        Some(event) => reader.handed(event),
        None => reader,
    }
}

/// All readers after an entity submessage.
pub open spec fn readers_after(
    readers: Map<u32, ReaderView>,
    submessage: EntitySubmessageView,
    state: MessageReceiverStateView,
) -> Map<u32, ReaderView> {
    readers.map_entries(|key: u32, reader: ReaderView| reader_after(key, reader, submessage, state))
}

/// The reader registered as `key` is handed `event`.
pub open spec fn to_reader(key: u32, event: ReaderEventView) -> EffectView {
    EffectView::ToReader { reader_id: EntityId { value: key }, event }
}

/// What the readers registered as `keys` are handed on an entity submessage,
/// in the order of `keys`.
pub open spec fn handed_to(
    keys: Seq<u32>,
    readers: Map<u32, ReaderView>,
    submessage: EntitySubmessageView,
    state: MessageReceiverStateView,
) -> Seq<EffectView>
    decreases keys.len(),
{
    if keys.len() == 0 {
        seq![]
    } else {
        let before = handed_to(keys.drop_last(), readers, submessage, state);
        match event_for(keys.last(), readers[keys.last()], submessage, state) {
            Some(event) => before.push(to_reader(keys.last(), event)),
            None => before,
        }
    }
}

/// What the readers are handed on an entity submessage: those with lower
/// identifiers come first.
pub open spec fn handed_to_readers(
    readers: Map<u32, ReaderView>,
    submessage: EntitySubmessageView,
    state: MessageReceiverStateView,
) -> Seq<EffectView> {
    handed_to(order::in_order(readers.dom()), readers, submessage, state)
}

/// If nothing but the reader registered as `id` is handed anything, then what
/// is handed over is what that reader is handed.
pub proof fn lemma_handed_to_one(
    keys: Seq<u32>,
    id: u32,
    readers: Map<u32, ReaderView>,
    submessage: EntitySubmessageView,
    state: MessageReceiverStateView,
)
    requires
        order::ascends(keys),
        forall|key: u32|
            key != id ==> #[trigger] event_for(key, readers[key], submessage, state) is None,
    ensures
        handed_to(keys, readers, submessage, state) == match event_for(
            id,
            readers[id],
            submessage,
            state,
        ) {
            Some(event) if keys.contains(id) => seq![to_reader(id, event)],
            _ => seq![],
        },
    decreases keys.len(),
{
    if keys.len() > 0 {
        let front = keys.drop_last();
        lemma_handed_to_one(front, id, readers, submessage, state);
        if front.contains(id) {
            assert(keys[front.index_of(id)] == id);
        } else if keys.contains(id) && keys.last() != id {
            assert(front[keys.index_of(id)] == id);
        }
    }
}

/// What the channels are handed on an entity submessage from `source`.
pub open spec fn handed_to_channels(
    submessage: EntitySubmessageView,
    source: GuidPrefix,
) -> Seq<EffectView> {
    match submessage {
        EntitySubmessageView::AckNack(acknack, _) => seq![
            EffectView::ToWriters {
                source_guid_prefix: source,
                acknack: AckSubmessage::AckNack(acknack),
            },
        ],
        EntitySubmessageView::Data(data, _) => {
            if data.writer_id == EntityId::spdp_builtin_participant_writer() {
                seq![EffectView::ToDiscovery { source_guid_prefix: source }]
            } else {
                seq![]
            }
        },
        _ => seq![],
    }
}

/// The notices that the readers named by `ids` get, in the order of `ids`.
/// Those that are not there get none.
pub open spec fn notices(readers: Map<u32, ReaderView>, ids: Seq<EntityId>) -> Seq<EffectView>
    decreases ids.len(),
{
    if ids.len() == 0 {
        seq![]
    } else {
        let before = notices(readers, ids.drop_last());
        if readers.contains_key(ids.last().value) {
            before.push(to_reader(ids.last().value, ReaderEventView::CacheChange))
        } else {
            before
        }
    }
}

/// The order to the reader registered as `key` to send acknowledgements.
pub open spec fn preemptive_acknacks(key: u32) -> EffectView {
    to_reader(key, ReaderEventView::PreemptiveAckNacks)
}

/// A message receiver.
pub struct ReceiverView {
    pub own_guid_prefix: GuidPrefix,
    pub context: ContextView,
    pub submessage_count: int,
    /// The local readers, by entity identifier.
    pub readers: Map<u32, ReaderView>,
    /// What has been handed on to the local writers.
    pub acknacks: Seq<(GuidPrefix, AckSubmessage)>,
    /// The participants that discovery has been told are alive.
    pub liveness: Seq<GuidPrefix>,
    /// What has come of it all and has not been taken away yet, in order.
    pub effects: Seq<EffectView>,
}

impl ReceiverView {
    /// Every reader is registered under its own entity identifier.
    pub open spec fn wf(self) -> bool {
        forall|key: u32| #[trigger]
            self.readers.contains_key(key) ==> self.readers[key].guid.entity_id.value == key
    }

    /// With a reader registered under its entity identifier, unless there is
    /// one already.
    pub open spec fn with_reader(self, reader: ReaderView) -> ReceiverView {
        let key = reader.guid.entity_id.value;
        if self.readers.contains_key(key) {
            self
        } else {
            ReceiverView { readers: self.readers.insert(key, reader), ..self }
        }
    }

    /// Without the reader of this entity identifier.
    pub open spec fn without_reader(self, id: EntityId) -> ReceiverView {
        ReceiverView { readers: self.readers.remove(id.value), ..self }
    }

    /// Between messages, with nothing left of the one handled last.
    pub open spec fn cleared(self) -> ReceiverView {
        ReceiverView { context: ContextView::cleared(), submessage_count: 0, ..self }
    }

    /// Once every reader has been told to send acknowledgements, those with
    /// lower identifiers first.
    pub open spec fn after_preemptive_acknacks(self) -> ReceiverView {
        ReceiverView {
            effects: self.effects + order::in_order(self.readers.dom()).map_values(
                |key: u32| preemptive_acknacks(key),
            ),
            ..self
        }
    }

    /// After an entity submessage, which is dropped if it is not for this
    /// participant.
    pub open spec fn after_entity(self, submessage: EntitySubmessageView) -> ReceiverView {
        if !self.context.is_for(self.own_guid_prefix) {
            ReceiverView {
                effects: self.effects.push(
                    EffectView::Dropped { dest_guid_prefix: self.context.dest_guid_prefix },
                ),
                ..self
            }
        } else {
            ReceiverView {
                readers: readers_after(self.readers, submessage, self.context.state()),
                acknacks: match submessage {
                    EntitySubmessageView::AckNack(acknack, _) => self.acknacks.push(
                        (self.context.source_guid_prefix, AckSubmessage::AckNack(acknack)),
                    ),
                    _ => self.acknacks,
                },
                liveness: match submessage {
                    EntitySubmessageView::Data(data, _) => {
                        if data.writer_id == EntityId::spdp_builtin_participant_writer() {
                            self.liveness.push(self.context.source_guid_prefix)
                        } else {
                            self.liveness
                        }
                    },
                    _ => self.liveness,
                },
                effects: self.effects + handed_to_readers(
                    self.readers,
                    submessage,
                    self.context.state(),
                ) + handed_to_channels(submessage, self.context.source_guid_prefix),
                ..self
            }
        }
    }

    /// After an interpreter submessage.
    pub open spec fn after_interpreter(
        self,
        submessage: InterpreterSubmessageView,
    ) -> ReceiverView {
        ReceiverView { context: self.context.interpret(self.own_guid_prefix, submessage), ..self }
    }

    /// After any submessage, which is counted.
    pub open spec fn after_submessage(self, submessage: SubmessageBodyView) -> ReceiverView {
        let next = match submessage {
            SubmessageBodyView::Interpreter(i) => self.after_interpreter(i),
            SubmessageBodyView::Entity(e) => self.after_entity(e),
        };
        ReceiverView { submessage_count: self.submessage_count + 1, ..next }
    }

    /// After some submessages, taken in order.
    pub open spec fn after_submessages(self, submessages: Seq<SubmessageBodyView>) -> ReceiverView
        decreases submessages.len(),
    {
        if submessages.len() == 0 {
            self
        } else {
            self.after_submessages(submessages.drop_last()).after_submessage(submessages.last())
        }
    }

    /// Ready for the submessages of a message from `source`.
    pub open spec fn at_start(self, source: GuidPrefix) -> ReceiverView {
        ReceiverView {
            context: ContextView::start(self.own_guid_prefix, source),
            submessage_count: 0,
            ..self
        }
    }

    /// After a whole message.
    pub open spec fn after_message(self, message: MessageView) -> ReceiverView {
        self.at_start(message.header.guid_prefix).after_submessages(message.submessages)
    }

    /// After a packet. One that is no message leaves no trace.
    pub open spec fn after_packet(self, octets: Seq<u8>) -> ReceiverView {
        match message::message_of(octets) {
            Ok(message) => self.after_message(message),
            Err(_) => self,
        }
    }
}

} // verus!
