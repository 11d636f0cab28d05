//! The message receiver.
use vstd::prelude::*;

use std::collections::BTreeMap;

use crate::channel::Outlet;
use crate::effect;
use crate::effect::Effect;
use crate::elements::Locator;
use crate::elements::ProtocolVersion;
use crate::elements::SequenceNumber;
use crate::elements::Timestamp;
use crate::elements::VendorId;
use crate::guid::EntityId;
use crate::guid::GUID;
use crate::guid::GuidPrefix;
use crate::header::RTPS_MESSAGE_HEADER_SIZE;
use crate::message;
use crate::message::Message;
use crate::model;
use crate::model::ContextView;
use crate::model::ReceiverView;
use crate::order;
use crate::packet;
use crate::packet::PacketOutcome;
use crate::reader;
use crate::reader::CacheChange;
use crate::reader::DDSData;
use crate::reader::Reader;
use crate::reader::ReaderEvent;
use crate::reader::ReaderView;
use crate::submessages::AckSubmessage;
use crate::submessages::EntitySubmessage;
use crate::submessages::EntitySubmessageView;
use crate::submessages::HEARTBEAT_FLAG_FINAL;
use crate::submessages::INFOREPLY_FLAG_MULTICAST;
use crate::submessages::InterpreterSubmessage;
use crate::submessages::Submessage;
use crate::submessages::SubmessageBody;

verus! {

/// What a reader gets to know of the message that a submessage came in.
#[derive(Debug)]
pub struct MessageReceiverState {
    pub source_guid_prefix: GuidPrefix,
    pub unicast_reply_locator_list: Vec<Locator>,
    pub multicast_reply_locator_list: Vec<Locator>,
    pub source_timestamp: Option<Timestamp>,
}

pub struct MessageReceiverStateView {
    pub source_guid_prefix: GuidPrefix,
    pub unicast_reply_locator_list: Seq<Locator>,
    pub multicast_reply_locator_list: Seq<Locator>,
    pub source_timestamp: Option<Timestamp>,
}

impl View for MessageReceiverState {
    type V = MessageReceiverStateView;

    open spec fn view(&self) -> MessageReceiverStateView {
        MessageReceiverStateView {
            source_guid_prefix: self.source_guid_prefix,
            unicast_reply_locator_list: self.unicast_reply_locator_list@,
            multicast_reply_locator_list: self.multicast_reply_locator_list@,
            source_timestamp: self.source_timestamp,
        }
    }
}

fn clone_locators(list: &Vec<Locator>) -> (r: Vec<Locator>)
    ensures
        r@ == list@,
{
    let r = list.clone();
    assert(r@ =~= list@);
    r
}

impl Clone for MessageReceiverState {
    fn clone(&self) -> (r: MessageReceiverState)
        ensures
            r@ == self@,
    {
        MessageReceiverState {
            source_guid_prefix: self.source_guid_prefix,
            unicast_reply_locator_list: clone_locators(&self.unicast_reply_locator_list),
            multicast_reply_locator_list: clone_locators(&self.multicast_reply_locator_list),
            source_timestamp: self.source_timestamp,
        }
    }
}

impl Default for MessageReceiverState {
    fn default() -> (r: MessageReceiverState)
        ensures
            r@ == (MessageReceiverStateView {
                source_guid_prefix: GuidPrefix::unknown(),
                unicast_reply_locator_list: seq![],
                multicast_reply_locator_list: seq![],
                source_timestamp: Some(Timestamp::invalid()),
            }),
    {
        MessageReceiverState {
            source_guid_prefix: GuidPrefix::default(),
            unicast_reply_locator_list: Vec::new(),
            multicast_reply_locator_list: Vec::new(),
            source_timestamp: Some(Timestamp::invalid()),
        }
    }
}

/// What is to be seen of the readers in a map.
pub open spec fn readers_view(readers: Map<u32, Reader>) -> Map<u32, ReaderView> {
    readers.map_values(|r: Reader| r@)
}

/// Calls `std::collections::BTreeMap::get_mut`. It gives a mutable reference
/// to the value at `key` if there is one: the map afterwards is the one
/// before, with what was left behind the reference at that key.
#[verifier::external_body]
fn get_mut<V>(map: &mut BTreeMap<u32, V>, key: u32) -> (r: Option<&mut V>)
    ensures
        match r {
            Some(value) => {
                &&& old(map)@.contains_key(key)
                &&& *value == old(map)@[key]
                &&& final(map)@ == old(map)@.insert(key, *final(value))
            },
            None => !old(map)@.contains_key(key) && final(map)@ == old(map)@,
        },
{
    map.get_mut(&key)
}

/// Seeing the readers and putting one among them can be done in either order.
proof fn lemma_view_of_insert(readers: Map<u32, Reader>, key: u32)
    ensures
        forall|reader: Reader|
            readers_view(#[trigger] readers.insert(key, reader)) == readers_view(readers).insert(
                key,
                reader@,
            ),
{
    assert forall|reader: Reader| readers_view(#[trigger] readers.insert(key, reader))
        == readers_view(readers).insert(key, reader@) by {
        assert(readers_view(readers.insert(key, reader)) =~= readers_view(readers).insert(
            key,
            reader@,
        ));
    }
}

/// Whether the submessage is of a kind that is offered to all readers when it
/// names none, and names none.
spec fn names_no_reader(submessage: EntitySubmessageView) -> bool {
    match submessage {
        EntitySubmessageView::Data(data, _) => data.reader_id == EntityId::unknown(),
        EntitySubmessageView::Heartbeat(heartbeat, _) => heartbeat.reader_id
            == EntityId::unknown(),
        EntitySubmessageView::HeartbeatFrag(heartbeatfrag, _) => heartbeatfrag.reader_id
            == EntityId::unknown(),
        _ => false,
    }
}

/// The reader that the submessage can be for, if there is only one. Where it
/// is for none, any will do.
spec fn named_reader(submessage: EntitySubmessageView) -> Option<EntityId> {
    if names_no_reader(submessage) {
        None
    } else {
        match submessage {
            EntitySubmessageView::Data(data, _) => Some(data.reader_id),
            EntitySubmessageView::Heartbeat(heartbeat, _) => Some(heartbeat.reader_id),
            EntitySubmessageView::HeartbeatFrag(heartbeatfrag, _) => Some(heartbeatfrag.reader_id),
            EntitySubmessageView::Gap(gap, _) => Some(gap.reader_id),
            EntitySubmessageView::DataFrag(datafrag, _) => Some(datafrag.reader_id),
            _ => Some(EntityId::unknown()),
        }
    }
}

/// Hands the submessage to the reader if it is for all matched readers and
/// this is one of them.
fn offer_to_reader(
    reader: &mut Reader,
    submessage: &EntitySubmessage,
    mr_state: &MessageReceiverState,
) -> (r: Option<ReaderEvent>)
    requires
        names_no_reader(submessage@),
    ensures
        forall|key: u32|
            match #[trigger] model::event_for(key, old(reader)@, submessage@, mr_state@) {
                Some(event) => {
                    &&& r is Some
                    &&& r->0@ == event
                    &&& final(reader)@ == old(reader)@.handed(event)
                },
                None => r is None && final(reader)@ == old(reader)@,
            },
{
    match submessage {
        EntitySubmessage::Data(data, data_flags) => {
            // The reader of announcements must read from writers that it
            // does not know yet.
            if reader.contains_writer(data.writer_id) || (data.writer_id
                == EntityId::spdp_builtin_participant_writer() && reader.entity_id()
                == EntityId::spdp_builtin_participant_reader()) {
                return Some(reader.handle_data_msg(data.clone(), *data_flags, mr_state));
            }
        },
        EntitySubmessage::Heartbeat(heartbeat, flags) => {
            if reader.contains_writer(heartbeat.writer_id) {
                return Some(
                    reader.handle_heartbeat_msg(
                        heartbeat,
                        flags.contains(HEARTBEAT_FLAG_FINAL),
                        mr_state.clone(),
                    ),
                );
            }
        },
        EntitySubmessage::HeartbeatFrag(heartbeatfrag, _) => {
            if reader.contains_writer(heartbeatfrag.writer_id) {
                return Some(reader.handle_heartbeatfrag_msg(heartbeatfrag, mr_state));
            }
        },
        _ => {},
    }
    None
}

/// Hands a submessage that names no reader to all readers it is for, those
/// with lower identifiers first.
fn offer_to_readers(
    readers: &mut BTreeMap<u32, Reader>,
    effects: &mut Vec<Effect>,
    submessage: &EntitySubmessage,
    mr_state: &MessageReceiverState,
)
    requires
        names_no_reader(submessage@),
    ensures
        readers_view(final(readers)@) == model::readers_after(
            readers_view(old(readers)@),
            submessage@,
            mr_state@,
        ),
        effect::effects_view(final(effects)@) == effect::effects_view(old(effects)@)
            + model::handed_to_readers(readers_view(old(readers)@), submessage@, mr_state@),
        effect::writers_answers(final(effects)@) == effect::writers_answers(old(effects)@),
        effect::discovery_answers(final(effects)@) == effect::discovery_answers(old(effects)@),
{
    let ghost before = readers_view(readers@);
    let ghost first = effect::effects_view(effects@);
    let keys = order::keys_of(readers);
    assert(readers@.dom() =~= before.dom());
    let mut i: usize = 0;
    assert(keys@.take(0) =~= seq![]);
    while i < keys.len()
        invariant
            i <= keys.len(),
            names_no_reader(submessage@),
            keys@.to_set() == before.dom(),
            order::ascends(keys@),
            readers@.dom() == before.dom(),
            forall|j: int|
                #![trigger keys@[j]]
                0 <= j < keys@.len() ==> readers@[keys@[j]]@ == if j < i {
                    model::reader_after(keys@[j], before[keys@[j]], submessage@, mr_state@)
                } else {
                    before[keys@[j]]
                },
            effect::effects_view(effects@) == first + model::handed_to(
                keys@.take(i as int),
                before,
                submessage@,
                mr_state@,
            ),
            effect::writers_answers(effects@) == effect::writers_answers(old(effects)@),
            effect::discovery_answers(effects@) == effect::discovery_answers(old(effects)@),
        decreases keys.len() - i,
    {
        let key: u32 = keys[i];
        assert(keys@.to_set().contains(key));
        assert(keys@.take(i + 1).drop_last() =~= keys@.take(i as int));
        let ghost event = model::event_for(key, before[key], submessage@, mr_state@);
        if let Some(reader) = get_mut(readers, key) {
            if let Some(event) = offer_to_reader(reader, submessage, mr_state) {
                effect::push_effect(
                    effects,
                    Effect::ToReader { reader_id: EntityId { value: key }, event },
                );
            }
        }
        i = i + 1;
        assert(effect::effects_view(effects@) =~= first + model::handed_to(
            keys@.take(i as int),
            before,
            submessage@,
            mr_state@,
        ));
    }
    assert(keys@.take(i as int) =~= keys@);
    assert forall|key: u32| readers@.contains_key(key) implies readers@[key]@
        == model::reader_after(key, before[key], submessage@, mr_state@) by {
        assert(keys@.to_set().contains(key));
        let j = keys@.index_of(key);
        assert(keys@[j] == key);
    }
    assert(readers_view(readers@) =~= model::readers_after(before, submessage@, mr_state@));
}

/// The message receiver of a participant. It goes through the submessages of
/// a message in order: interpreter submessages change how those after them
/// are taken, entity submessages are handed on to the local readers, and
/// acknowledgements to the local writers.
pub struct MessageReceiver {
    /// The local readers, by the number of their entity identifier.
    pub available_readers: BTreeMap<u32, Reader>,
    /// To the local writers. Each acknowledgement goes with the prefix of the
    /// participant that sent it, by which a writer finds its proxy of the
    /// reader.
    pub acknack_sender: Outlet<(GuidPrefix, AckSubmessage)>,
    /// To discovery, which is told past the reader that a participant is
    /// alive: it needs the repeated announcements that the reader drops.
    pub spdp_liveness_sender: Outlet<GuidPrefix>,
    /// The participant that this receiver belongs to.
    pub own_guid_prefix: GuidPrefix,
    pub source_version: ProtocolVersion,
    pub source_vendor_id: VendorId,
    pub source_guid_prefix: GuidPrefix,
    pub dest_guid_prefix: GuidPrefix,
    pub unicast_reply_locator_list: Vec<Locator>,
    pub multicast_reply_locator_list: Vec<Locator>,
    pub source_timestamp: Option<Timestamp>,
    pub submessage_count: usize,
    /// What has come of it all and has not been taken away yet, oldest first.
    pub effects: Vec<Effect>,
}

impl View for MessageReceiver {
    type V = ReceiverView;

    open spec fn view(&self) -> ReceiverView {
        ReceiverView {
            own_guid_prefix: self.own_guid_prefix,
            context: ContextView {
                source_version: self.source_version,
                source_vendor_id: self.source_vendor_id,
                source_guid_prefix: self.source_guid_prefix,
                dest_guid_prefix: self.dest_guid_prefix,
                unicast_reply_locator_list: self.unicast_reply_locator_list@,
                multicast_reply_locator_list: self.multicast_reply_locator_list@,
                source_timestamp: self.source_timestamp,
            },
            submessage_count: self.submessage_count as int,
            readers: readers_view(self.available_readers@),
            acknacks: self.acknack_sender.handed(),
            liveness: self.spdp_liveness_sender.handed(),
            effects: effect::effects_view(self.effects@),
        }
    }
}

impl MessageReceiver {
    /// The effects give the answers of the channels as they were: those that
    /// have not been taken away are the last ones that came.
    pub open spec fn reports_answers(&self) -> bool {
        &&& effect::writers_answers(self.effects@).is_suffix_of(self.acknack_sender.answers())
        &&& effect::discovery_answers(self.effects@).is_suffix_of(
            self.spdp_liveness_sender.answers(),
        )
    }

    pub fn new(
        participant_guid_prefix: GuidPrefix,
        acknack_sender: mio_extras::channel::SyncSender<(GuidPrefix, AckSubmessage)>,
        spdp_liveness_sender: mio_extras::channel::SyncSender<GuidPrefix>,
    ) -> (r: MessageReceiver)
        ensures
            r@ == (ReceiverView {
                own_guid_prefix: participant_guid_prefix,
                context: ContextView {
                    unicast_reply_locator_list: seq![Locator::Invalid],
                    multicast_reply_locator_list: seq![Locator::Invalid],
                    ..ContextView::cleared()
                },
                submessage_count: 0,
                readers: Map::empty(),
                acknacks: seq![],
                liveness: seq![],
                effects: seq![],
            }),
            r.reports_answers(),
    {
        let r = MessageReceiver {
            available_readers: BTreeMap::new(),
            acknack_sender: Outlet::new(acknack_sender),
            spdp_liveness_sender: Outlet::new(spdp_liveness_sender),
            own_guid_prefix: participant_guid_prefix,
            source_version: ProtocolVersion::this_implementation(),
            source_vendor_id: VendorId::vendor_unknown(),
            source_guid_prefix: GuidPrefix::unknown(),
            dest_guid_prefix: GuidPrefix::unknown(),
            unicast_reply_locator_list: vec![Locator::Invalid],
            multicast_reply_locator_list: vec![Locator::Invalid],
            source_timestamp: None,
            submessage_count: 0,
            effects: Vec::new(),
        };
        assert(r@.effects =~= seq![]);
        assert(r@.readers =~= Map::empty());
        assert(r.unicast_reply_locator_list@ =~= seq![Locator::Invalid]);
        assert(r.multicast_reply_locator_list@ =~= seq![Locator::Invalid]);
        r
    }

    /// Forgets the message handled last.
    pub fn reset(&mut self)
        ensures
            final(self)@ == old(self)@.cleared(),
            old(self).reports_answers() ==> final(self).reports_answers(),
    {
        self.source_version = ProtocolVersion::this_implementation();
        self.source_vendor_id = VendorId::vendor_unknown();
        self.source_guid_prefix = GuidPrefix::unknown();
        self.dest_guid_prefix = GuidPrefix::unknown();
        self.unicast_reply_locator_list.clear();
        self.multicast_reply_locator_list.clear();
        self.source_timestamp = None;
        self.submessage_count = 0;
    }

    fn give_message_receiver_info(&self) -> (r: MessageReceiverState)
        ensures
            r@ == self@.context.state(),
    {
        MessageReceiverState {
            source_guid_prefix: self.source_guid_prefix,
            unicast_reply_locator_list: clone_locators(&self.unicast_reply_locator_list),
            multicast_reply_locator_list: clone_locators(&self.multicast_reply_locator_list),
            source_timestamp: self.source_timestamp,
        }
    }

    /// Registers a reader, unless there is one with its entity identifier.
    pub fn add_reader(&mut self, new_reader: Reader)
        ensures
            final(self)@ == old(self)@.with_reader(new_reader@),
            old(self).reports_answers() ==> final(self).reports_answers(),
    {
        broadcast use vstd::std_specs::btree::group_btree_axioms;

        let key: u32 = new_reader.guid().entity_id.value;
        if !self.available_readers.contains_key(&key) {
            self.available_readers.insert(key, new_reader);
            assert(self@.readers =~= old(self)@.readers.insert(key, new_reader@));
        }
    }

    /// Takes away the reader with this entity identifier, if there is one.
    pub fn remove_reader(&mut self, old_reader_guid: GUID) -> (r: Option<Reader>)
        ensures
            match r {
                Some(reader) => {
                    &&& old(self)@.readers.contains_key(old_reader_guid.entity_id.value)
                    &&& reader@ == old(self)@.readers[old_reader_guid.entity_id.value]
                },
                None => !old(self)@.readers.contains_key(old_reader_guid.entity_id.value),
            },
            final(self)@ == old(self)@.without_reader(old_reader_guid.entity_id),
            old(self).reports_answers() ==> final(self).reports_answers(),
    {
        broadcast use vstd::std_specs::btree::group_btree_axioms;

        let r = self.available_readers.remove(&old_reader_guid.entity_id.value);
        assert(self@.readers =~= old(self)@.readers.remove(old_reader_guid.entity_id.value));
        r
    }

    /// The reader with this entity identifier, if there is one.
    pub fn reader_mut(&mut self, reader_id: EntityId) -> (r: Option<&mut Reader>)
        ensures
            match r {
                Some(reader) => {
                    &&& old(self)@.readers.contains_key(reader_id.value)
                    &&& reader@ == old(self)@.readers[reader_id.value]
                    &&& final(self)@ == (ReceiverView {
                        readers: old(self)@.readers.insert(reader_id.value, (*final(reader))@),
                        ..old(self)@
                    })
                },
                None => {
                    &&& !old(self)@.readers.contains_key(reader_id.value)
                    &&& final(self)@ == old(self)@
                },
            },
            old(self).reports_answers() ==> final(self).reports_answers(),
    {
        proof {
            lemma_view_of_insert(self.available_readers@, reader_id.value);
        }
        get_mut(&mut self.available_readers, reader_id.value)
    }

    /// Hands an entity submessage on, if it is for this participant.
    fn handle_entity_submessage(&mut self, submessage: EntitySubmessage)
        ensures
            final(self)@ == old(self)@.after_entity(submessage@),
            old(self).reports_answers() ==> final(self).reports_answers(),
    {
        if self.dest_guid_prefix != self.own_guid_prefix && self.dest_guid_prefix
            != GuidPrefix::unknown() {
            effect::push_effect(
                &mut self.effects,
                Effect::Dropped { dest_guid_prefix: self.dest_guid_prefix },
            );
            return;
        }
        let mr_state = self.give_message_receiver_info();
        let ghost readers = self@.readers;
        let ghost state = mr_state@;
        let ghost first = self@.effects;
        proof {
            order::lemma_in_order(readers.dom());
            if named_reader(submessage@) is Some {
                model::lemma_handed_to_one(
                    order::in_order(readers.dom()),
                    named_reader(submessage@)->0.value,
                    readers,
                    submessage@,
                    state,
                );
            }
        }
        match submessage {
            EntitySubmessage::Data(data, data_flags) => {
                let writer_entity_id = data.writer_id;
                let source_guid_prefix = mr_state.source_guid_prefix;
                let reader_id = data.reader_id;
                if reader_id == EntityId::unknown() {
                    offer_to_readers(
                        &mut self.available_readers,
                        &mut self.effects,
                        &EntitySubmessage::Data(data, data_flags),
                        &mr_state,
                    );
                } else if let Some(target_reader) = self.reader_mut(reader_id) {
                    let event = target_reader.handle_data_msg(data, data_flags, &mr_state);
                    effect::push_effect(&mut self.effects, Effect::ToReader { reader_id, event });
                }
                assert(self@.effects =~= first + model::handed_to_readers(
                    readers,
                    submessage@,
                    state,
                ));
                assert(self@.readers =~= model::readers_after(readers, submessage@, state));
                if writer_entity_id == EntityId::spdp_builtin_participant_writer() {
                    let answer = self.spdp_liveness_sender.offer(source_guid_prefix);
                    effect::push_effect(
                        &mut self.effects,
                        Effect::ToDiscovery { source_guid_prefix, answer },
                    );
                }
            },
            EntitySubmessage::Heartbeat(heartbeat, flags) => {
                let reader_id = heartbeat.reader_id;
                if reader_id == EntityId::unknown() {
                    offer_to_readers(
                        &mut self.available_readers,
                        &mut self.effects,
                        &EntitySubmessage::Heartbeat(heartbeat, flags),
                        &mr_state,
                    );
                } else if let Some(target_reader) = self.reader_mut(reader_id) {
                    let event = target_reader.handle_heartbeat_msg(
                        &heartbeat,
                        flags.contains(HEARTBEAT_FLAG_FINAL),
                        mr_state,
                    );
                    effect::push_effect(&mut self.effects, Effect::ToReader { reader_id, event });
                }
            },
            EntitySubmessage::Gap(gap, _) => {
                let reader_id = gap.reader_id;
                if let Some(target_reader) = self.reader_mut(reader_id) {
                    let event = target_reader.handle_gap_msg(&gap, &mr_state);
                    effect::push_effect(&mut self.effects, Effect::ToReader { reader_id, event });
                }
            },
            EntitySubmessage::AckNack(acknack, _) => {
                let source_guid_prefix = self.source_guid_prefix;
                let acknack = AckSubmessage::AckNack(acknack);
                let answer = self.acknack_sender.offer((source_guid_prefix, acknack));
                effect::push_effect(
                    &mut self.effects,
                    Effect::ToWriters { source_guid_prefix, acknack, answer },
                );
            },
            EntitySubmessage::DataFrag(datafrag, flags) => {
                let reader_id = datafrag.reader_id;
                if let Some(target_reader) = self.reader_mut(reader_id) {
                    let event = target_reader.handle_datafrag_msg(&datafrag, flags, &mr_state);
                    effect::push_effect(&mut self.effects, Effect::ToReader { reader_id, event });
                }
            },
            EntitySubmessage::HeartbeatFrag(heartbeatfrag, flags) => {
                let reader_id = heartbeatfrag.reader_id;
                if reader_id == EntityId::unknown() {
                    offer_to_readers(
                        &mut self.available_readers,
                        &mut self.effects,
                        &EntitySubmessage::HeartbeatFrag(heartbeatfrag, flags),
                        &mr_state,
                    );
                } else if let Some(target_reader) = self.reader_mut(reader_id) {
                    let event = target_reader.handle_heartbeatfrag_msg(&heartbeatfrag, &mr_state);
                    effect::push_effect(&mut self.effects, Effect::ToReader { reader_id, event });
                }
            },
            EntitySubmessage::NackFrag(_, _) => {},
        }
        assert(self@.readers =~= model::readers_after(readers, submessage@, state));
        assert(self@.effects =~= first + model::handed_to_readers(readers, submessage@, state)
            + model::handed_to_channels(submessage@, state.source_guid_prefix));
    }

    /// Takes note of what an interpreter submessage says.
    fn handle_interpreter_submessage(&mut self, interp_subm: InterpreterSubmessage)
        requires
            interp_subm@.wf(),
        ensures
            final(self)@ == old(self)@.after_interpreter(interp_subm@),
            old(self).reports_answers() ==> final(self).reports_answers(),
    {
        match interp_subm {
            InterpreterSubmessage::InfoTimestamp(info_ts, _) => {
                self.source_timestamp = info_ts.timestamp;
            },
            InterpreterSubmessage::InfoSource(info_src, _) => {
                self.source_guid_prefix = info_src.guid_prefix;
                self.source_version = info_src.protocol_version;
                self.source_vendor_id = info_src.vendor_id;
                self.unicast_reply_locator_list.clear();
                self.multicast_reply_locator_list.clear();
                self.source_timestamp = None;
            },
            InterpreterSubmessage::InfoReply(info_reply, flags) => {
                self.unicast_reply_locator_list = info_reply.unicast_locator_list;
                if flags.contains(INFOREPLY_FLAG_MULTICAST) {
                    self.multicast_reply_locator_list = info_reply.multicast_locator_list.unwrap();
                } else {
                    self.multicast_reply_locator_list.clear();
                }
            },
            InterpreterSubmessage::InfoDestination(info_dest, _) => {
                if info_dest.guid_prefix == GUID::unknown().prefix {
                    self.dest_guid_prefix = self.own_guid_prefix;
                } else {
                    self.dest_guid_prefix = info_dest.guid_prefix;
                }
            },
        }
    }

    /// The sample of the first change with this number that a reader has been
    /// handed. For debugging.
    pub fn get_reader_and_history_cache_change(
        &self,
        reader_id: EntityId,
        sequence_number: SequenceNumber,
    ) -> (r: Option<DDSData>)
        requires
            self@.readers.contains_key(reader_id.value),
            reader::first_change(self@.readers[reader_id.value].history, sequence_number) is Some,
        ensures
            r is Some,
            r->0@ == reader::first_change(
                self@.readers[reader_id.value].history,
                sequence_number,
            )->0.data_value,
    {
        broadcast use vstd::std_specs::btree::group_btree_axioms;

        let reader = self.available_readers.get(&reader_id.value).unwrap();
        Some(reader.history_cache_change_data(sequence_number).unwrap())
    }

    /// The first change with this number that a reader has been handed. For
    /// debugging.
    pub fn get_reader_and_history_cache_change_object(
        &self,
        reader_id: EntityId,
        sequence_number: SequenceNumber,
    ) -> (r: CacheChange)
        requires
            self@.readers.contains_key(reader_id.value),
            reader::first_change(self@.readers[reader_id.value].history, sequence_number) is Some,
        ensures
            r@ == reader::first_change(
                self@.readers[reader_id.value].history,
                sequence_number,
            )->0,
    {
        broadcast use vstd::std_specs::btree::group_btree_axioms;

        let reader = self.available_readers.get(&reader_id.value).unwrap();
        reader.history_cache_change(sequence_number).unwrap()
    }

    /// The lowest and the highest number of the changes that a reader has been
    /// handed; nothing if there are none. For debugging.
    pub fn get_reader_history_cache_start_and_end_seq_num(&self, reader_id: EntityId) -> (r: Vec<
        SequenceNumber,
    >)
        requires
            self@.readers.contains_key(reader_id.value),
        ensures
            reader::spans(self@.readers[reader_id.value].history, r@),
    {
        broadcast use vstd::std_specs::btree::group_btree_axioms;

        let reader = self.available_readers.get(&reader_id.value).unwrap();
        reader.history_cache_sequence_start_and_end_numbers()
    }

    /// Handles a packet. Only one that can be read as a message has any effect.
    pub fn handle_received_packet(&mut self, msg_bytes: &bytes::Bytes) -> (r: PacketOutcome)
        ensures
            ({
                let octets = packet::octets_of(*msg_bytes);
                &&& r == packet::outcome_of(octets)
                &&& final(self)@ == old(self)@.after_packet(octets)
            }),
            old(self).reports_answers() ==> final(self).reports_answers(),
    {
        self.handle_packet_octets(msg_bytes)
    }

    /// Handles the octets of a packet.
    pub fn handle_packet_octets(&mut self, octets: &[u8]) -> (r: PacketOutcome)
        ensures
            r == packet::outcome_of(octets@),
            final(self)@ == old(self)@.after_packet(octets@),
            old(self).reports_answers() ==> final(self).reports_answers(),
    {
        // There is no agreed answer to a ping.
        if octets.len() < RTPS_MESSAGE_HEADER_SIZE {
            return if packet::packet_is_ping(octets) {
                PacketOutcome::Ping
            } else {
                PacketOutcome::TooShort
            };
        }
        let rtps_message = match Message::read_from_buffer(octets) {
            Ok(m) => m,
            Err(e) => return PacketOutcome::Malformed(e),
        };
        proof {
            message::lemma_read_message_is_wf(octets@);
        }
        self.handle_parsed_message(rtps_message);
        PacketOutcome::Handled
    }

    /// Handles a message that has been read already, or that was sent by this
    /// participant to itself.
    pub fn handle_parsed_message(&mut self, rtps_message: Message)
        requires
            rtps_message@.wf(),
        ensures
            final(self)@ == old(self)@.after_message(rtps_message@),
            old(self).reports_answers() ==> final(self).reports_answers(),
    {
        self.reset();
        self.dest_guid_prefix = self.own_guid_prefix;
        self.source_guid_prefix = rtps_message.header.guid_prefix;
        let ghost start = self@;
        let ghost submessages = rtps_message@.submessages;
        let ghost count: usize = rtps_message.submessages.len();
        for submessage in it: rtps_message.submessages
            invariant
                submessages == it.seq().map_values(|s: Submessage| s@),
                it.seq().len() == count,
                forall|i: int| 0 <= i < submessages.len() ==> (#[trigger] submessages[i]).wf(),
                self.submessage_count == it.index(),
                self@ == start.after_submessages(submessages.take(it.index() as int)),
                old(self).reports_answers() ==> self.reports_answers(),
        {
            assert(submessages[it.index() as int] == submessage@);
            assert(submessages.take(it.index() + 1).drop_last() =~= submessages.take(
                it.index() as int,
            ));
            match submessage.body {
                SubmessageBody::Interpreter(i) => self.handle_interpreter_submessage(i),
                SubmessageBody::Entity(e) => self.handle_entity_submessage(e),
            }
            self.submessage_count = self.submessage_count + 1;
        }
        assert(submessages.take(submessages.len() as int) =~= submessages);
    }

    /// Has the readers among `readers` say that there is something new, in the
    /// order of the list and once for each time that they are named. The
    /// receiver stays as it is: what there is to do is returned.
    pub fn notify_data_to_readers(&self, readers: Vec<EntityId>) -> (r: Vec<Effect>)
        ensures
            effect::effects_view(r@) == model::notices(self@.readers, readers@),
    {
        broadcast use vstd::std_specs::btree::group_btree_axioms;

        let mut r: Vec<Effect> = Vec::new();
        let mut i: usize = 0;
        assert(effect::effects_view(r@) =~= model::notices(self@.readers, readers@.take(0)));
        while i < readers.len()
            invariant
                i <= readers.len(),
                effect::effects_view(r@) == model::notices(
                    self@.readers,
                    readers@.take(i as int),
                ),
            decreases readers.len() - i,
        {
            let reader_id = readers[i];
            assert(readers@.take(i + 1).drop_last() =~= readers@.take(i as int));
            if let Some(reader) = self.available_readers.get(&reader_id.value) {
                let event = reader.notify_cache_change();
                effect::push_effect(&mut r, Effect::ToReader { reader_id, event });
            }
            i = i + 1;
        }
        assert(readers@.take(i as int) =~= readers@);
        r
    }

    /// Has every reader send acknowledgements to the writers that have shown
    /// no action yet, those with lower identifiers first.
    pub fn send_preemptive_acknacks(&mut self)
        ensures
            final(self)@ == old(self)@.after_preemptive_acknacks(),
            old(self).reports_answers() ==> final(self).reports_answers(),
    {
        let ghost before = self@;
        let keys = order::keys_of(&self.available_readers);
        assert(self.available_readers@.dom() =~= before.readers.dom());
        let mut i: usize = 0;
        assert(self@.effects =~= before.effects + keys@.take(0).map_values(
            |key: u32| model::preemptive_acknacks(key),
        ));
        while i < keys.len()
            invariant
                i <= keys.len(),
                keys@.to_set() == before.readers.dom(),
                self@ == (ReceiverView { effects: self@.effects, ..before }),
                self@.effects == before.effects + keys@.take(i as int).map_values(
                    |key: u32| model::preemptive_acknacks(key),
                ),
                old(self).reports_answers() ==> self.reports_answers(),
            decreases keys.len() - i,
        {
            let reader_id = EntityId { value: keys[i] };
            assert(keys@.to_set().contains(reader_id.value));
            if let Some(reader) = self.reader_mut(reader_id) {
                let event = reader.send_preemptive_acknacks();
                effect::push_effect(&mut self.effects, Effect::ToReader { reader_id, event });
            }
            i = i + 1;
            assert(self@.readers =~= before.readers);
            assert(self@.effects =~= before.effects + keys@.take(i as int).map_values(
                |key: u32| model::preemptive_acknacks(key),
            ));
        }
        assert(keys@.take(i as int) =~= keys@);
    }

    /// Takes away what has come of it all so far, oldest first.
    pub fn take_effects(&mut self) -> (r: Vec<Effect>)
        ensures
            r@ == old(self).effects@,
            final(self)@ == (ReceiverView { effects: seq![], ..old(self)@ }),
            final(self).reports_answers(),
    {
        let mut r: Vec<Effect> = Vec::new();
        core::mem::swap(&mut r, &mut self.effects);
        assert(self@.effects =~= seq![]);
        r
    }
}

} // verus!
