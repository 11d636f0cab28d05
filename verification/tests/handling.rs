use bytes::Bytes;
use mio_extras::channel as mio_channel;
use mio_extras::channel::Receiver;

use rtps_receiver::channel::SendAnswer;
use rtps_receiver::effect::Effect;
use rtps_receiver::elements::Locator;
use rtps_receiver::elements::ProtocolVersion;
use rtps_receiver::elements::ReadError;
use rtps_receiver::elements::SequenceNumber;
use rtps_receiver::elements::SequenceNumberSet;
use rtps_receiver::elements::FragmentNumberSet;
use rtps_receiver::elements::Timestamp;
use rtps_receiver::elements::VendorId;
use rtps_receiver::guid::EntityId;
use rtps_receiver::guid::GuidPrefix;
use rtps_receiver::guid::GUID;
use rtps_receiver::header::Header;
use rtps_receiver::message::Message;
use rtps_receiver::message_receiver::MessageReceiver;
use rtps_receiver::message_receiver::MessageReceiverState;
use rtps_receiver::packet::PacketOutcome;
use rtps_receiver::reader::Reader;
use rtps_receiver::reader::ReaderEvent;
use rtps_receiver::submessages::AckNack;
use rtps_receiver::submessages::AckSubmessage;
use rtps_receiver::submessages::Data;
use rtps_receiver::submessages::DataFrag;
use rtps_receiver::submessages::EntitySubmessage;
use rtps_receiver::submessages::Gap;
use rtps_receiver::submessages::Heartbeat;
use rtps_receiver::submessages::HeartbeatFrag;
use rtps_receiver::submessages::InfoDestination;
use rtps_receiver::submessages::InfoReply;
use rtps_receiver::submessages::InfoSource;
use rtps_receiver::submessages::InfoTimestamp;
use rtps_receiver::submessages::InterpreterSubmessage;
use rtps_receiver::submessages::NackFrag;
use rtps_receiver::submessages::SerializedPayload;
use rtps_receiver::submessages::Submessage;
use rtps_receiver::submessages::SubmessageBody;
use rtps_receiver::submessages::SubmessageFlags;

const WRITER: EntityId = EntityId { value: 0x0000_0102 };
const OTHER_WRITER: EntityId = EntityId { value: 0x0000_0202 };
const NO_FLAGS: SubmessageFlags = SubmessageFlags { bits: 0 };

struct Bench {
    receiver: MessageReceiver,
    acknacks: Receiver<(GuidPrefix, AckSubmessage)>,
    liveness: Receiver<GuidPrefix>,
    // Taken from the receiver and not looked at yet.
    effects: Vec<Effect>,
}

fn own() -> GuidPrefix {
    GuidPrefix::new(&[1, 1, 1, 1, 1, 1, 1, 1, 1, 1, 1, 1])
}

fn sender() -> GuidPrefix {
    GuidPrefix::new(&[2, 2, 2, 2, 2, 2, 2, 2, 2, 2, 2, 2])
}

fn stranger() -> GuidPrefix {
    GuidPrefix::new(&[3, 3, 3, 3, 3, 3, 3, 3, 3, 3, 3, 3])
}

fn bench_with_room(room: usize) -> Bench {
    let (acknack_sender, acknacks) = mio_channel::sync_channel(room);
    let (spdp_liveness_sender, liveness) = mio_channel::sync_channel(room);
    Bench {
        receiver: MessageReceiver::new(own(), acknack_sender, spdp_liveness_sender),
        acknacks,
        liveness,
        effects: Vec::new(),
    }
}

fn bench() -> Bench {
    bench_with_room(8)
}

fn id(value: u32) -> EntityId {
    EntityId { value }
}

fn reader(value: u32, writers: &[EntityId]) -> Reader {
    let mut r = Reader::new(GUID::new_with_prefix_and_id(own(), id(value)));
    for w in writers {
        r.matched_writers.push(GUID::new_with_prefix_and_id(sender(), *w));
    }
    r
}

fn message(submessages: Vec<SubmessageBody>) -> Message {
    Message {
        header: Header::new(sender()),
        submessages: submessages.into_iter().map(|body| Submessage { body }).collect(),
    }
}

fn entity(e: EntitySubmessage) -> SubmessageBody {
    SubmessageBody::Entity(e)
}

fn interpreter(i: InterpreterSubmessage) -> SubmessageBody {
    SubmessageBody::Interpreter(i)
}

fn destination(guid_prefix: GuidPrefix) -> SubmessageBody {
    interpreter(InterpreterSubmessage::InfoDestination(InfoDestination { guid_prefix }, NO_FLAGS))
}

fn timestamp(timestamp: Option<Timestamp>) -> SubmessageBody {
    interpreter(InterpreterSubmessage::InfoTimestamp(InfoTimestamp { timestamp }, NO_FLAGS))
}

fn data(reader_id: EntityId, writer_id: EntityId, sn: i64) -> SubmessageBody {
    entity(EntitySubmessage::Data(
        Data {
            reader_id,
            writer_id,
            writer_sn: SequenceNumber::new(sn),
            inline_qos: None,
            serialized_payload: Some(SerializedPayload {
                representation_identifier: [0, 1],
                representation_options: [0, 0],
                value: vec![sn as u8],
            }),
        },
        SubmessageFlags { bits: 0x05 },
    ))
}

fn heartbeat(reader_id: EntityId, writer_id: EntityId, bits: u8) -> SubmessageBody {
    entity(EntitySubmessage::Heartbeat(
        Heartbeat {
            reader_id,
            writer_id,
            first_sn: SequenceNumber::new(1),
            last_sn: SequenceNumber::new(9),
            count: 4,
        },
        SubmessageFlags { bits },
    ))
}

fn heartbeatfrag(reader_id: EntityId, writer_id: EntityId) -> SubmessageBody {
    entity(EntitySubmessage::HeartbeatFrag(
        HeartbeatFrag {
            reader_id,
            writer_id,
            writer_sn: SequenceNumber::new(5),
            last_fragment_num: 3,
            count: 1,
        },
        NO_FLAGS,
    ))
}

fn some_set() -> SequenceNumberSet {
    SequenceNumberSet {
        bitmap_base: SequenceNumber::new(3),
        num_bits: 0,
        bitmap: [0; 8],
    }
}

fn gap(reader_id: EntityId) -> SubmessageBody {
    entity(EntitySubmessage::Gap(
        Gap {
            reader_id,
            writer_id: WRITER,
            gap_start: SequenceNumber::new(1),
            gap_list: some_set(),
        },
        NO_FLAGS,
    ))
}

fn datafrag(reader_id: EntityId) -> SubmessageBody {
    entity(EntitySubmessage::DataFrag(
        DataFrag {
            reader_id,
            writer_id: WRITER,
            writer_sn: SequenceNumber::new(6),
            fragment_starting_num: 1,
            fragments_in_submessage: 1,
            fragment_size: 2,
            data_size: 4,
            inline_qos: None,
            serialized_payload: vec![7, 8],
        },
        SubmessageFlags { bits: 0x01 },
    ))
}

fn some_acknack() -> AckNack {
    AckNack {
        reader_id: id(0x4c7),
        writer_id: id(0x4c2),
        reader_sn_state: some_set(),
        count: 3,
    }
}

fn acknack() -> SubmessageBody {
    entity(EntitySubmessage::AckNack(some_acknack(), NO_FLAGS))
}

fn nackfrag() -> SubmessageBody {
    entity(EntitySubmessage::NackFrag(
        NackFrag {
            reader_id: id(7),
            writer_id: WRITER,
            writer_sn: SequenceNumber::new(1),
            fragment_number_state: FragmentNumberSet {
                bitmap_base: 1,
                num_bits: 0,
                bitmap: [0; 8],
            },
            count: 1,
        },
        NO_FLAGS,
    ))
}

fn for_reader(effects: &mut Vec<Effect>, value: u32) -> Vec<ReaderEvent> {
    let mut found = Vec::new();
    let mut rest = Vec::new();
    for effect in effects.drain(..) {
        match effect {
            Effect::ToReader { reader_id, event } if reader_id == id(value) => found.push(event),
            other => rest.push(other),
        }
    }
    *effects = rest;
    found
}

fn events(b: &mut Bench, value: u32) -> Vec<ReaderEvent> {
    let mut new = b.receiver.take_effects();
    b.effects.append(&mut new);
    for_reader(&mut b.effects, value)
}

// What each effect goes to, in order.
fn targets(effects: &[Effect]) -> Vec<String> {
    effects
        .iter()
        .map(|effect| match effect {
            Effect::ToReader { reader_id, .. } => format!("reader {}", reader_id.value),
            Effect::ToWriters { answer, .. } => format!("writers {:?}", answer),
            Effect::ToDiscovery { answer, .. } => format!("discovery {:?}", answer),
            Effect::Dropped { dest_guid_prefix } => format!("dropped {}", dest_guid_prefix.bytes[0]),
        })
        .collect()
}

fn data_numbers(events: &[ReaderEvent]) -> Vec<i64> {
    let mut r = Vec::new();
    for e in events {
        match e {
            ReaderEvent::Data { data, .. } => r.push(data.writer_sn.value),
            _ => panic!("unexpected {:?}", e),
        }
    }
    r
}

#[test]
fn new_receiver() {
    let b = bench();
    assert!(b.receiver.available_readers.is_empty());
    assert_eq!(b.receiver.own_guid_prefix, own());
    assert_eq!(b.receiver.source_version, ProtocolVersion { major: 2, minor: 3 });
    assert_eq!(b.receiver.source_vendor_id, VendorId { vendor_id: [0, 0] });
    assert_eq!(b.receiver.source_guid_prefix, GuidPrefix::unknown());
    assert_eq!(b.receiver.dest_guid_prefix, GuidPrefix::unknown());
    assert_eq!(b.receiver.unicast_reply_locator_list, vec![Locator::Invalid]);
    assert_eq!(b.receiver.multicast_reply_locator_list, vec![Locator::Invalid]);
    assert_eq!(b.receiver.source_timestamp, None);
    assert_eq!(b.receiver.submessage_count, 0);
}

#[test]
fn default_state() {
    let state = MessageReceiverState::default();
    assert_eq!(state.source_guid_prefix, GuidPrefix::default());
    assert!(state.unicast_reply_locator_list.is_empty());
    assert!(state.multicast_reply_locator_list.is_empty());
    assert_eq!(state.source_timestamp, Some(Timestamp::invalid()));
}

#[test]
fn reset_forgets_the_message_but_not_the_readers() {
    let mut b = bench();
    b.receiver.add_reader(reader(7, &[]));
    b.receiver.handle_parsed_message(message(vec![
        timestamp(Some(Timestamp { seconds: 5, fraction: 6 })),
        destination(stranger()),
    ]));
    assert_eq!(b.receiver.submessage_count, 2);
    assert_eq!(b.receiver.source_guid_prefix, sender());
    assert_eq!(b.receiver.dest_guid_prefix, stranger());
    b.receiver.reset();
    assert_eq!(b.receiver.submessage_count, 0);
    assert_eq!(b.receiver.source_guid_prefix, GuidPrefix::unknown());
    assert_eq!(b.receiver.dest_guid_prefix, GuidPrefix::unknown());
    assert_eq!(b.receiver.source_timestamp, None);
    assert!(b.receiver.unicast_reply_locator_list.is_empty());
    assert!(b.receiver.multicast_reply_locator_list.is_empty());
    assert_eq!(b.receiver.available_readers.len(), 1);
}

#[test]
fn second_reader_under_an_identifier_is_not_added() {
    let mut b = bench();
    b.receiver.add_reader(reader(7, &[WRITER]));
    b.receiver.add_reader(reader(7, &[OTHER_WRITER]));
    assert_eq!(b.receiver.available_readers.len(), 1);
    assert!(b.receiver.reader_mut(id(7)).unwrap().contains_writer(WRITER));
    assert!(!b.receiver.reader_mut(id(7)).unwrap().contains_writer(OTHER_WRITER));
}

#[test]
fn removed_reader_is_handed_back() {
    let mut b = bench();
    let guid = GUID::new_with_prefix_and_id(own(), id(7));
    assert!(b.receiver.remove_reader(guid).is_none());
    b.receiver.add_reader(reader(7, &[WRITER]));
    b.receiver.add_reader(reader(8, &[]));
    let r = b.receiver.remove_reader(guid).unwrap();
    assert_eq!(r.guid(), guid);
    assert!(r.contains_writer(WRITER));
    assert!(b.receiver.reader_mut(id(7)).is_none());
    assert!(b.receiver.reader_mut(id(8)).is_some());
    b.receiver.add_reader(r);
    assert!(b.receiver.reader_mut(id(7)).unwrap().contains_writer(WRITER));
}

#[test]
fn data_goes_to_the_reader_it_names() {
    let mut b = bench();
    b.receiver.add_reader(reader(7, &[]));
    b.receiver.add_reader(reader(8, &[WRITER]));
    b.receiver.handle_parsed_message(message(vec![data(id(7), WRITER, 1), data(id(9), WRITER, 2)]));
    assert_eq!(data_numbers(&events(&mut b, 7)), vec![1]);
    assert!(events(&mut b, 8).is_empty());
    assert_eq!(b.receiver.submessage_count, 2);
}

#[test]
fn data_that_names_no_reader_goes_to_matched_readers() {
    let mut b = bench();
    b.receiver.add_reader(reader(7, &[OTHER_WRITER, WRITER]));
    b.receiver.add_reader(reader(8, &[WRITER]));
    b.receiver.add_reader(reader(9, &[OTHER_WRITER]));
    b.receiver.handle_parsed_message(message(vec![
        data(EntityId::unknown(), WRITER, 1),
        data(EntityId::unknown(), OTHER_WRITER, 2),
    ]));
    assert_eq!(data_numbers(&events(&mut b, 7)), vec![1, 2]);
    assert_eq!(data_numbers(&events(&mut b, 8)), vec![1]);
    assert_eq!(data_numbers(&events(&mut b, 9)), vec![2]);
    assert!(b.liveness.try_recv().is_err());
}

#[test]
fn announcements_reach_their_reader_and_discovery() {
    let mut b = bench();
    let spdp_reader = EntityId::spdp_builtin_participant_reader().value;
    b.receiver.add_reader(reader(spdp_reader, &[]));
    b.receiver.add_reader(reader(7, &[]));
    let spdp_writer = EntityId::spdp_builtin_participant_writer();
    b.receiver.handle_parsed_message(message(vec![
        data(EntityId::unknown(), spdp_writer, 1),
        data(EntityId::unknown(), WRITER, 2),
    ]));
    assert_eq!(data_numbers(&events(&mut b, spdp_reader)), vec![1]);
    assert!(events(&mut b, 7).is_empty());
    assert_eq!(b.liveness.try_recv().unwrap(), sender());
    assert!(b.liveness.try_recv().is_err());

    // Also where there is no reader for them.
    let mut c = bench();
    c.receiver.handle_parsed_message(message(vec![data(id(99), spdp_writer, 1)]));
    assert_eq!(c.liveness.try_recv().unwrap(), sender());
}

#[test]
fn heartbeats() {
    let mut b = bench();
    b.receiver.add_reader(reader(7, &[WRITER]));
    b.receiver.add_reader(reader(8, &[]));
    b.receiver.handle_parsed_message(message(vec![
        heartbeat(EntityId::unknown(), WRITER, 0x03),
        heartbeat(id(8), WRITER, 0x01),
    ]));
    let seven = events(&mut b, 7);
    assert_eq!(seven.len(), 1);
    match &seven[0] {
        ReaderEvent::Heartbeat { heartbeat, final_flag, state } => {
            assert_eq!(heartbeat.last_sn, SequenceNumber::new(9));
            assert!(*final_flag);
            assert_eq!(state.source_guid_prefix, sender());
        }
        e => panic!("unexpected {:?}", e),
    }
    let eight = events(&mut b, 8);
    assert_eq!(eight.len(), 1);
    assert!(matches!(&eight[0], ReaderEvent::Heartbeat { final_flag: false, .. }));
}

#[test]
fn heartbeatfrags() {
    let mut b = bench();
    b.receiver.add_reader(reader(7, &[WRITER]));
    b.receiver.add_reader(reader(8, &[]));
    b.receiver.handle_parsed_message(message(vec![
        heartbeatfrag(EntityId::unknown(), WRITER),
        heartbeatfrag(id(8), OTHER_WRITER),
    ]));
    let seven = events(&mut b, 7);
    assert_eq!(seven.len(), 1);
    assert!(matches!(
        &seven[0],
        ReaderEvent::HeartbeatFrag { heartbeatfrag, .. } if heartbeatfrag.writer_id == WRITER
    ));
    let eight = events(&mut b, 8);
    assert_eq!(eight.len(), 1);
    assert!(matches!(
        &eight[0],
        ReaderEvent::HeartbeatFrag { heartbeatfrag, .. } if heartbeatfrag.writer_id == OTHER_WRITER
    ));
}

#[test]
fn gaps_and_fragments_only_go_to_the_reader_they_name() {
    let mut b = bench();
    b.receiver.add_reader(reader(7, &[WRITER]));
    b.receiver.handle_parsed_message(message(vec![
        gap(EntityId::unknown()),
        datafrag(EntityId::unknown()),
        gap(id(7)),
        datafrag(id(7)),
    ]));
    let seven = events(&mut b, 7);
    assert_eq!(seven.len(), 2);
    assert!(matches!(&seven[0], ReaderEvent::Gap { gap, .. } if gap.gap_list == some_set()));
    assert!(matches!(
        &seven[1],
        ReaderEvent::DataFrag { datafrag, flags, .. }
            if datafrag.serialized_payload == vec![7, 8] && flags.bits == 1
    ));
}

#[test]
fn acknowledgements_go_to_the_writers_under_their_sender() {
    let mut b = bench();
    b.receiver.handle_parsed_message(message(vec![acknack()]));
    assert_eq!(
        b.acknacks.try_recv().unwrap(),
        (sender(), AckSubmessage::AckNack(some_acknack()))
    );
    assert!(b.acknacks.try_recv().is_err());
    assert!(b.liveness.try_recv().is_err());
}

#[test]
fn full_channels_do_not_stop_the_receiver() {
    let mut b = bench_with_room(1);
    b.receiver.add_reader(reader(7, &[]));
    b.receiver.handle_parsed_message(message(vec![acknack(), acknack(), data(id(7), WRITER, 1)]));
    assert_eq!(b.receiver.submessage_count, 3);
    assert!(matches!(
        &b.receiver.effects[0],
        Effect::ToWriters { source_guid_prefix, acknack, answer: SendAnswer::Sent }
            if *source_guid_prefix == sender()
                && *acknack == AckSubmessage::AckNack(some_acknack())
    ));
    assert!(matches!(
        &b.receiver.effects[1],
        Effect::ToWriters { answer: SendAnswer::Full, .. }
    ));
    assert!(b.acknacks.try_recv().is_ok());
    assert!(b.acknacks.try_recv().is_err());
    assert_eq!(data_numbers(&events(&mut b, 7)), vec![1]);
}

#[test]
fn closed_channels_do_not_stop_the_receiver() {
    let (acknack_sender, acknacks) = mio_channel::sync_channel(1);
    let (spdp_liveness_sender, liveness) = mio_channel::sync_channel::<GuidPrefix>(1);
    drop(acknacks);
    drop(liveness);
    let mut receiver = MessageReceiver::new(own(), acknack_sender, spdp_liveness_sender);
    let spdp_writer = EntityId::spdp_builtin_participant_writer();
    receiver.handle_parsed_message(message(vec![acknack(), data(id(7), spdp_writer, 1)]));
    assert_eq!(receiver.submessage_count, 2);
    assert_eq!(
        targets(&receiver.take_effects()),
        vec!["writers Disconnected", "discovery Disconnected"]
    );
}

#[test]
fn nackfrag_is_ignored() {
    let mut b = bench();
    b.receiver.add_reader(reader(7, &[WRITER]));
    b.receiver.handle_parsed_message(message(vec![nackfrag()]));
    assert_eq!(b.receiver.submessage_count, 1);
    assert!(events(&mut b, 7).is_empty());
    assert!(b.acknacks.try_recv().is_err());
}

#[test]
fn submessages_for_others_are_counted_and_dropped() {
    let mut b = bench();
    b.receiver.add_reader(reader(7, &[WRITER]));
    b.receiver.handle_parsed_message(message(vec![
        data(id(7), WRITER, 1),
        destination(stranger()),
        data(id(7), WRITER, 2),
        acknack(),
        data(EntityId::unknown(), EntityId::spdp_builtin_participant_writer(), 3),
        destination(GuidPrefix::unknown()),
        data(id(7), WRITER, 4),
        destination(stranger()),
        destination(own()),
        data(id(7), WRITER, 5),
    ]));
    assert_eq!(b.receiver.submessage_count, 10);
    assert_eq!(data_numbers(&events(&mut b, 7)), vec![1, 4, 5]);
    assert!(b.acknacks.try_recv().is_err());
    assert!(b.liveness.try_recv().is_err());
}

#[test]
fn messages_do_not_depend_on_those_before() {
    let mut b = bench();
    b.receiver.add_reader(reader(7, &[]));
    b.receiver.handle_parsed_message(message(vec![
        destination(stranger()),
        timestamp(Some(Timestamp { seconds: 1, fraction: 2 })),
    ]));
    b.receiver.handle_parsed_message(message(vec![data(id(7), WRITER, 1)]));
    let seven = events(&mut b, 7);
    assert_eq!(data_numbers(&seven), vec![1]);
    assert!(matches!(&seven[0], ReaderEvent::Data { state, .. } if state.source_timestamp.is_none()));
    assert_eq!(b.receiver.submessage_count, 1);
}

#[test]
fn interpreter_submessages_go_with_those_after_them() {
    let mut b = bench();
    b.receiver.add_reader(reader(7, &[]));
    let t = Timestamp { seconds: 10, fraction: 20 };
    let unicast = Locator::UdpV4 { address: [10, 0, 0, 1], port: 7400 };
    let multicast = Locator::UdpV4 { address: [239, 255, 0, 1], port: 7401 };
    let reply = |flags: u8, list: Option<Vec<Locator>>| {
        interpreter(InterpreterSubmessage::InfoReply(
            InfoReply { unicast_locator_list: vec![unicast], multicast_locator_list: list },
            SubmessageFlags { bits: flags },
        ))
    };
    b.receiver.handle_parsed_message(message(vec![
        data(id(7), WRITER, 1),
        timestamp(Some(t)),
        reply(0x02, Some(vec![multicast])),
        data(id(7), WRITER, 2),
        reply(0x00, Some(vec![multicast])),
        data(id(7), WRITER, 3),
        interpreter(InterpreterSubmessage::InfoSource(
            InfoSource {
                protocol_version: ProtocolVersion { major: 2, minor: 1 },
                vendor_id: VendorId { vendor_id: [1, 15] },
                guid_prefix: stranger(),
            },
            NO_FLAGS,
        )),
        data(id(7), WRITER, 4),
        timestamp(Some(t)),
        timestamp(None),
        data(id(7), WRITER, 5),
    ]));
    let mut states = Vec::new();
    for e in events(&mut b, 7) {
        match e {
            ReaderEvent::Data { state, .. } => states.push((
                state.source_guid_prefix,
                state.unicast_reply_locator_list,
                state.multicast_reply_locator_list,
                state.source_timestamp,
            )),
            e => panic!("unexpected {:?}", e),
        }
    }
    assert_eq!(
        states,
        vec![
            (sender(), vec![], vec![], None),
            (sender(), vec![unicast], vec![multicast], Some(t)),
            (sender(), vec![unicast], vec![], Some(t)),
            (stranger(), vec![], vec![], None),
            (stranger(), vec![], vec![], None),
        ]
    );
    assert_eq!(b.receiver.source_version, ProtocolVersion { major: 2, minor: 1 });
    assert_eq!(b.receiver.source_vendor_id, VendorId { vendor_id: [1, 15] });
    assert_eq!(b.receiver.dest_guid_prefix, own());
}

#[test]
fn acknowledgements_after_another_source_go_under_it() {
    let mut b = bench();
    b.receiver.handle_parsed_message(message(vec![
        interpreter(InterpreterSubmessage::InfoSource(
            InfoSource {
                protocol_version: ProtocolVersion { major: 2, minor: 3 },
                vendor_id: VendorId { vendor_id: [0, 0] },
                guid_prefix: stranger(),
            },
            NO_FLAGS,
        )),
        acknack(),
        data(id(7), EntityId::spdp_builtin_participant_writer(), 1),
    ]));
    assert_eq!(b.acknacks.try_recv().unwrap().0, stranger());
    assert_eq!(b.liveness.try_recv().unwrap(), stranger());
}

#[test]
fn first_change_with_a_number_is_looked_up() {
    let mut b = bench();
    b.receiver.add_reader(reader(7, &[]));
    assert!(b.receiver.get_reader_history_cache_start_and_end_seq_num(id(7)).is_empty());
    b.receiver.handle_parsed_message(message(vec![
        timestamp(Some(Timestamp { seconds: 3, fraction: 4 })),
        data(id(7), WRITER, 5),
        data(id(7), WRITER, 2),
        data(id(7), OTHER_WRITER, 5),
        data(id(7), WRITER, 9),
    ]));
    assert_eq!(
        b.receiver.get_reader_history_cache_start_and_end_seq_num(id(7)),
        vec![SequenceNumber::new(2), SequenceNumber::new(9)]
    );
    let change =
        b.receiver.get_reader_and_history_cache_change_object(id(7), SequenceNumber::new(5));
    assert_eq!(change.writer_guid, GUID::new_with_prefix_and_id(sender(), WRITER));
    assert_eq!(change.source_timestamp, Some(Timestamp { seconds: 3, fraction: 4 }));
    assert_eq!(change.data_value.data().unwrap(), &vec![5]);
    let sample =
        b.receiver.get_reader_and_history_cache_change(id(7), SequenceNumber::new(9)).unwrap();
    assert_eq!(sample.data().unwrap(), &vec![9]);
    assert!(b
        .receiver
        .reader_mut(id(7))
        .unwrap()
        .history_cache_change(SequenceNumber::new(1))
        .is_none());
}

#[test]
fn readers_are_told_as_often_as_they_are_named() {
    let mut b = bench();
    b.receiver.add_reader(reader(7, &[]));
    b.receiver.add_reader(reader(8, &[]));
    b.receiver.add_reader(reader(9, &[]));
    let mut notices = b.receiver.notify_data_to_readers(vec![id(8), id(7), id(99), id(7)]);
    assert!(b.receiver.take_effects().is_empty());
    assert_eq!(targets(&notices), vec!["reader 8", "reader 7", "reader 7"]);
    let seven = for_reader(&mut notices, 7);
    assert_eq!(seven.len(), 2);
    assert!(seven.iter().all(|e| matches!(e, ReaderEvent::CacheChange)));
    assert_eq!(for_reader(&mut notices, 8).len(), 1);
    assert!(for_reader(&mut notices, 9).is_empty());
}

#[test]
fn readers_are_served_in_ascending_order() {
    let mut b = bench_with_room(1);
    let spdp_writer = EntityId::spdp_builtin_participant_writer();
    for value in [9, 0x0001_00c7, 7, 0xffff_ff07, 8] {
        b.receiver.add_reader(reader(value, &[WRITER]));
    }
    b.receiver.handle_parsed_message(message(vec![
        heartbeat(EntityId::unknown(), WRITER, 0),
        acknack(),
        data(EntityId::unknown(), spdp_writer, 1),
        acknack(),
        destination(stranger()),
        gap(id(7)),
    ]));
    assert_eq!(
        targets(&b.receiver.take_effects()),
        vec![
            "reader 7",
            "reader 8",
            "reader 9",
            "reader 65735",
            "reader 4294967047",
            "writers Sent",
            "reader 65735",
            "discovery Sent",
            "writers Full",
            "dropped 3",
        ]
    );
    b.receiver.send_preemptive_acknacks();
    assert_eq!(
        targets(&b.receiver.take_effects()),
        vec!["reader 7", "reader 8", "reader 9", "reader 65735", "reader 4294967047"]
    );
}

#[test]
fn effects_are_taken_away_once_and_the_history_stays() {
    let mut b = bench();
    b.receiver.add_reader(reader(7, &[]));
    b.receiver.handle_parsed_message(message(vec![data(id(7), WRITER, 5)]));
    assert_eq!(b.receiver.take_effects().len(), 1);
    assert!(b.receiver.take_effects().is_empty());
    let change =
        b.receiver.get_reader_and_history_cache_change_object(id(7), SequenceNumber::new(5));
    assert_eq!(change.data_value.data().unwrap(), &vec![5]);
    b.receiver.handle_parsed_message(message(vec![heartbeat(id(7), WRITER, 0)]));
    assert_eq!(
        b.receiver.get_reader_history_cache_start_and_end_seq_num(id(7)),
        vec![SequenceNumber::new(5), SequenceNumber::new(5)]
    );
}

// Interpreter submessages that differ in one thing only.
fn timestamp_of(seconds: u32) -> SubmessageBody {
    timestamp(Some(Timestamp { seconds, fraction: 0 }))
}

fn source_of(guid_prefix: GuidPrefix) -> SubmessageBody {
    interpreter(InterpreterSubmessage::InfoSource(
        InfoSource {
            protocol_version: ProtocolVersion { major: 2, minor: 1 },
            vendor_id: VendorId { vendor_id: [1, 15] },
            guid_prefix,
        },
        NO_FLAGS,
    ))
}

fn reply_to(port: u32) -> SubmessageBody {
    interpreter(InterpreterSubmessage::InfoReply(
        InfoReply {
            unicast_locator_list: vec![Locator::UdpV4 { address: [10, 0, 0, 1], port }],
            multicast_locator_list: Some(vec![Locator::Reserved]),
        },
        SubmessageFlags { bits: 2 },
    ))
}

// What a receiver remembers of a message with these submessages.
fn context_after(submessages: Vec<SubmessageBody>) -> String {
    let mut r = bench().receiver;
    r.handle_parsed_message(message(submessages));
    format!(
        "{:?} {:?} {:?} {:?} {:?} {:?} {:?}",
        r.source_version,
        r.source_vendor_id,
        r.source_guid_prefix,
        r.dest_guid_prefix,
        r.unicast_reply_locator_list,
        r.multicast_reply_locator_list,
        r.source_timestamp
    )
}

#[test]
fn repeated_interpretation() {
    assert_eq!(
        context_after(vec![reply_to(1), reply_to(1)]),
        context_after(vec![reply_to(1)])
    );
    assert_eq!(
        context_after(vec![source_of(stranger()), source_of(stranger())]),
        context_after(vec![source_of(stranger())])
    );
    assert_eq!(
        context_after(vec![timestamp_of(1), timestamp_of(1)]),
        context_after(vec![timestamp_of(1)])
    );
    assert_eq!(
        context_after(vec![destination(stranger()), destination(stranger())]),
        context_after(vec![destination(stranger())])
    );
}

#[test]
fn destination_is_independent() {
    let to = || destination(stranger());
    assert_eq!(
        context_after(vec![to(), timestamp_of(1)]),
        context_after(vec![timestamp_of(1), to()])
    );
    assert_eq!(
        context_after(vec![to(), source_of(own())]),
        context_after(vec![source_of(own()), to()])
    );
    assert_eq!(context_after(vec![to(), reply_to(1)]), context_after(vec![reply_to(1), to()]));
}

#[test]
fn new_source_voids_what_went_before() {
    let alone = context_after(vec![source_of(stranger())]);
    assert_eq!(context_after(vec![timestamp_of(1), source_of(stranger())]), alone);
    assert_eq!(context_after(vec![reply_to(1), source_of(stranger())]), alone);
    assert_eq!(context_after(vec![source_of(own()), source_of(stranger())]), alone);
    assert_ne!(context_after(vec![source_of(stranger()), timestamp_of(1)]), alone);
}

#[test]
fn every_reader_sends_preemptive_acknacks() {
    let mut b = bench();
    b.receiver.add_reader(reader(7, &[]));
    b.receiver.add_reader(reader(8, &[]));
    b.receiver.send_preemptive_acknacks();
    for value in [7, 8] {
        let e = events(&mut b, value);
        assert_eq!(e.len(), 1);
        assert!(matches!(&e[0], ReaderEvent::PreemptiveAckNacks));
    }
}

#[test]
fn pings_and_short_packets() {
    let mut b = bench();
    b.receiver.handle_parsed_message(message(vec![destination(stranger())]));
    let mut ping = b"RTPS\x02\x03\x01\x01\x00DDSPING".to_vec();
    assert_eq!(
        b.receiver.handle_received_packet(&Bytes::from(ping.clone())),
        PacketOutcome::Ping
    );
    ping.extend_from_slice(&[0, 0, 0]);
    assert_eq!(
        b.receiver.handle_received_packet(&Bytes::from(ping.clone())),
        PacketOutcome::Ping
    );
    // With one octet more it is long enough for a message.
    ping.push(0);
    assert_eq!(
        b.receiver.handle_received_packet(&Bytes::from(ping.clone())),
        PacketOutcome::Handled
    );
    for short in [
        &b""[..],
        &b"RTPS"[..],
        &b"RTPS\x02\x03\x01\x01\x00DDSPIN"[..],
        &b"RTPS\x02\x03\x01\x01\x00DDSPANG"[..],
        &b"RTPX\x02\x03\x01\x01\x00DDSPING"[..],
    ] {
        let mut c = bench();
        c.receiver.handle_parsed_message(message(vec![destination(stranger())]));
        assert_eq!(
            c.receiver.handle_received_packet(&Bytes::copy_from_slice(short)),
            PacketOutcome::TooShort
        );
        assert_eq!(c.receiver.submessage_count, 1);
        assert_eq!(c.receiver.dest_guid_prefix, stranger());
    }
}

#[test]
fn malformed_packets_leave_no_trace() {
    let mut b = bench();
    b.receiver.handle_parsed_message(message(vec![destination(stranger())]));
    let mut octets = Header::new(sender()).write_to_vec();
    // INFO_TS without its timestamp.
    octets.extend_from_slice(&[0x09, 0x01, 0x00, 0x00]);
    assert_eq!(
        b.receiver.handle_received_packet(&Bytes::from(octets)),
        PacketOutcome::Malformed(ReadError::UnexpectedEnd)
    );
    assert_eq!(b.receiver.submessage_count, 1);
    assert_eq!(b.receiver.dest_guid_prefix, stranger());
    assert_eq!(
        b.receiver.handle_received_packet(&Bytes::from(vec![0; 20])),
        PacketOutcome::Malformed(ReadError::NotRtps)
    );
    assert_eq!(b.receiver.submessage_count, 1);
}

#[test]
fn bare_header_is_a_message() {
    let mut b = bench();
    let octets = Header::new(stranger()).write_to_vec();
    assert_eq!(
        b.receiver.handle_received_packet(&Bytes::from(octets)),
        PacketOutcome::Handled
    );
    assert_eq!(b.receiver.submessage_count, 0);
    assert_eq!(b.receiver.source_guid_prefix, stranger());
    assert_eq!(b.receiver.dest_guid_prefix, own());
}

#[test]
fn flags_promise_multicast_locators() {
    let with = |flags: u8, list: Option<Vec<Locator>>| {
        message(vec![
            timestamp(None),
            interpreter(InterpreterSubmessage::InfoReply(
                InfoReply { unicast_locator_list: vec![], multicast_locator_list: list },
                SubmessageFlags { bits: flags },
            )),
            acknack(),
        ])
    };
    assert_eq!(message(vec![]).first_broken(), None);
    assert_eq!(with(0x02, Some(vec![])).first_broken(), None);
    assert_eq!(with(0x00, None).first_broken(), None);
    assert_eq!(with(0x00, Some(vec![])).first_broken(), None);
    assert_eq!(with(0x02, None).first_broken(), Some(1));
}

#[test]
fn readers_stay_under_their_identifiers() {
    let mut b = bench();
    for value in [9, 7, 8] {
        b.receiver.add_reader(reader(value, &[WRITER]));
    }
    b.receiver.handle_parsed_message(message(vec![data(EntityId::unknown(), WRITER, 1)]));
    b.receiver.send_preemptive_acknacks();
    b.receiver.remove_reader(GUID::new_with_prefix_and_id(own(), id(8)));
    let mut keys = Vec::new();
    for (key, r) in &b.receiver.available_readers {
        assert_eq!(*key, r.entity_id().value);
        keys.push(*key);
    }
    assert_eq!(keys, vec![7, 9]);
    assert_eq!(events(&mut b, 7).len(), 2);
    assert_eq!(events(&mut b, 9).len(), 2);
}
