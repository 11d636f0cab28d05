use bytes::Bytes;
use mio_extras::channel as mio_channel;

use rtps_receiver::elements::SequenceNumber;
use rtps_receiver::guid::EntityId;
use rtps_receiver::guid::EntityKind;
use rtps_receiver::guid::GuidPrefix;
use rtps_receiver::guid::GUID;
use rtps_receiver::header::Header;
use rtps_receiver::message_receiver::MessageReceiver;
use rtps_receiver::reader::Reader;
use rtps_receiver::submessages::AckSubmessage;

struct ShapeType {
    color: String,
    x: i32,
    y: i32,
    size: i32,
}

fn little_endian_i32(bytes: &[u8]) -> i32 {
    i32::from_le_bytes([bytes[0], bytes[1], bytes[2], bytes[3]])
}

// A string is its length, with the zero at its end counted, and its octets.
fn deserialize_shape_type(bytes: &[u8]) -> ShapeType {
    let length = little_endian_i32(bytes) as usize;
    let color = String::from_utf8(bytes[4..4 + length - 1].to_vec()).unwrap();
    let rest = &bytes[4 + length..];
    ShapeType {
        color,
        x: little_endian_i32(rest),
        y: little_endian_i32(&rest[4..]),
        size: little_endian_i32(&rest[8..]),
    }
}

#[test]
fn test_shapes_demo_message_deserialization() {
    // Captured from the shapes demo.
    // Udp packet with INFO_DST, INFO_TS, DATA, HEARTBEAT
    let udp_bits1 = Bytes::from_static(&[
        0x52, 0x54, 0x50, 0x53, 0x02, 0x03, 0x01, 0x0f, 0x01, 0x0f, 0x99, 0x06, 0x78, 0x34, 0x00,
        0x00, 0x01, 0x00, 0x00, 0x00, 0x0e, 0x01, 0x0c, 0x00, 0x01, 0x03, 0x00, 0x0c, 0x29, 0x2d,
        0x31, 0xa2, 0x28, 0x20, 0x02, 0x08, 0x09, 0x01, 0x08, 0x00, 0x1a, 0x15, 0xf3, 0x5e, 0x00,
        0xcc, 0xfb, 0x13, 0x15, 0x05, 0x2c, 0x00, 0x00, 0x00, 0x10, 0x00, 0x00, 0x00, 0x00, 0x07,
        0x00, 0x00, 0x01, 0x02, 0x00, 0x00, 0x00, 0x00, 0x5b, 0x00, 0x00, 0x00, 0x00, 0x01, 0x00,
        0x00, 0x04, 0x00, 0x00, 0x00, 0x52, 0x45, 0x44, 0x00, 0x69, 0x00, 0x00, 0x00, 0x17, 0x00,
        0x00, 0x00, 0x1e, 0x00, 0x00, 0x00, 0x07, 0x01, 0x1c, 0x00, 0x00, 0x00, 0x00, 0x07, 0x00,
        0x00, 0x01, 0x02, 0x00, 0x00, 0x00, 0x00, 0x5b, 0x00, 0x00, 0x00, 0x00, 0x00, 0x00, 0x00,
        0x5b, 0x00, 0x00, 0x00, 0x1f, 0x00, 0x00, 0x00,
    ]);

    // The participant that the packet is for.
    let gui_prefix = GuidPrefix::new(&[
        0x01, 0x03, 0x00, 0x0c, 0x29, 0x2d, 0x31, 0xa2, 0x28, 0x20, 0x02, 0x8,
    ]);

    let (acknack_sender, _acknack_receiver) =
        mio_channel::sync_channel::<(GuidPrefix, AckSubmessage)>(10);
    let (spdp_liveness_sender, _spdp_liveness_receiver) = mio_channel::sync_channel(8);
    let mut message_receiver =
        MessageReceiver::new(gui_prefix, acknack_sender, spdp_liveness_sender);

    let entity =
        EntityId::create_custom_entity_id([0, 0, 0], EntityKind::READER_WITH_KEY_USER_DEFINED);
    let new_guid = GUID::new_with_prefix_and_id(gui_prefix, entity);

    let new_reader = Reader::new(new_guid);

    message_receiver.add_reader(new_reader);

    message_receiver.handle_received_packet(&udp_bits1);

    assert_eq!(message_receiver.submessage_count, 4);

    let sequence_numbers =
        message_receiver.get_reader_history_cache_start_and_end_seq_num(new_guid.entity_id);
    assert_eq!(
        sequence_numbers,
        vec![SequenceNumber::new(91), SequenceNumber::new(91)]
    );

    let a = message_receiver
        .get_reader_and_history_cache_change(new_guid.entity_id, *sequence_numbers.first().unwrap())
        .unwrap();

    let deserialized_shape_type = deserialize_shape_type(a.data().unwrap());
    assert_eq!(deserialized_shape_type.color, "RED");
    assert_eq!(deserialized_shape_type.x, 105);
    assert_eq!(deserialized_shape_type.y, 23);
    assert_eq!(deserialized_shape_type.size, 30);

    let mut change = message_receiver.get_reader_and_history_cache_change_object(
        new_guid.entity_id,
        *sequence_numbers.first().unwrap(),
    );
    assert_eq!(change.sequence_number, SequenceNumber::new(91));
    assert_eq!(
        change.writer_guid,
        GUID::new_with_prefix_and_id(
            GuidPrefix::new(&[
                0x01, 0x0f, 0x99, 0x06, 0x78, 0x34, 0x00, 0x00, 0x01, 0x00, 0x00, 0x00
            ]),
            EntityId::create_custom_entity_id(
                [0, 0, 1],
                EntityKind::WRITER_WITH_KEY_USER_DEFINED
            ),
        )
    );
    change.sequence_number = SequenceNumber::new(91);
}

#[test]
fn mr_test_submsg_count() {
    // Udp packet with INFO_DST, INFO_TS, DATA, HEARTBEAT
    let udp_bits1 = Bytes::from_static(&[
        0x52, 0x54, 0x50, 0x53, 0x02, 0x03, 0x01, 0x0f, 0x01, 0x0f, 0x99, 0x06, 0x78, 0x34, 0x00,
        0x00, 0x01, 0x00, 0x00, 0x00, 0x0e, 0x01, 0x0c, 0x00, 0x01, 0x03, 0x00, 0x0c, 0x29, 0x2d,
        0x31, 0xa2, 0x28, 0x20, 0x02, 0x08, 0x09, 0x01, 0x08, 0x00, 0x18, 0x15, 0xf3, 0x5e, 0x00,
        0x5c, 0xf0, 0x34, 0x15, 0x05, 0x2c, 0x00, 0x00, 0x00, 0x10, 0x00, 0x00, 0x00, 0x00, 0x07,
        0x00, 0x00, 0x01, 0x02, 0x00, 0x00, 0x00, 0x00, 0x43, 0x00, 0x00, 0x00, 0x00, 0x01, 0x00,
        0x00, 0x04, 0x00, 0x00, 0x00, 0x52, 0x45, 0x44, 0x00, 0x21, 0x00, 0x00, 0x00, 0x89, 0x00,
        0x00, 0x00, 0x1e, 0x00, 0x00, 0x00, 0x07, 0x01, 0x1c, 0x00, 0x00, 0x00, 0x00, 0x07, 0x00,
        0x00, 0x01, 0x02, 0x00, 0x00, 0x00, 0x00, 0x43, 0x00, 0x00, 0x00, 0x00, 0x00, 0x00, 0x00,
        0x43, 0x00, 0x00, 0x00, 0x07, 0x00, 0x00, 0x00,
    ]);
    // Udp packet with INFO_DST, ACKNACK
    let udp_bits2 = Bytes::from_static(&[
        0x52, 0x54, 0x50, 0x53, 0x02, 0x03, 0x01, 0x0f, 0x01, 0x0f, 0x99, 0x06, 0x78, 0x34, 0x00,
        0x00, 0x01, 0x00, 0x00, 0x00, 0x0e, 0x01, 0x0c, 0x00, 0x01, 0x03, 0x00, 0x0c, 0x29, 0x2d,
        0x31, 0xa2, 0x28, 0x20, 0x02, 0x08, 0x06, 0x03, 0x18, 0x00, 0x00, 0x00, 0x04, 0xc7, 0x00,
        0x00, 0x04, 0xc2, 0x00, 0x00, 0x00, 0x00, 0x02, 0x00, 0x00, 0x00, 0x00, 0x00, 0x00, 0x00,
        0x03, 0x00, 0x00, 0x00,
    ]);

    let guid_new = GUID::default();
    let (acknack_sender, _acknack_receiver) =
        mio_channel::sync_channel::<(GuidPrefix, AckSubmessage)>(10);
    let (spdp_liveness_sender, _spdp_liveness_receiver) = mio_channel::sync_channel(8);
    let mut message_receiver =
        MessageReceiver::new(guid_new.prefix, acknack_sender, spdp_liveness_sender);

    message_receiver.handle_received_packet(&udp_bits1);
    assert_eq!(message_receiver.submessage_count, 4);

    message_receiver.handle_received_packet(&udp_bits2);
    assert_eq!(message_receiver.submessage_count, 2);
}

#[test]
fn mr_test_header() {
    let guid_new = GUID::default();
    let header = Header::new(guid_new.prefix);

    let bytes = header.write_to_vec();
    let new_header = Header::read_from_buffer(&bytes).unwrap();
    assert_eq!(header, new_header);
}
