use rtps_receiver::elements::FragmentNumberSet;
use rtps_receiver::elements::Locator;
use rtps_receiver::elements::ProtocolVersion;
use rtps_receiver::elements::ReadError;
use rtps_receiver::elements::SequenceNumber;
use rtps_receiver::elements::SequenceNumberSet;
use rtps_receiver::elements::Timestamp;
use rtps_receiver::elements::VendorId;
use rtps_receiver::guid::EntityId;
use rtps_receiver::guid::GuidPrefix;
use rtps_receiver::header::Header;
use rtps_receiver::message::Message;
use rtps_receiver::submessages::AckNack;
use rtps_receiver::submessages::Data;
use rtps_receiver::submessages::DataFrag;
use rtps_receiver::submessages::EntitySubmessage;
use rtps_receiver::submessages::Gap;
use rtps_receiver::submessages::Heartbeat;
use rtps_receiver::submessages::HeartbeatFrag;
use rtps_receiver::submessages::InfoDestination;
use rtps_receiver::submessages::InfoReply;
use rtps_receiver::submessages::InfoSource;
use rtps_receiver::submessages::InfoTimestamp;
use rtps_receiver::submessages::InterpreterSubmessage;
use rtps_receiver::submessages::NackFrag;
use rtps_receiver::submessages::SerializedPayload;
use rtps_receiver::submessages::SubmessageBody;
use rtps_receiver::submessages::SubmessageFlags;
use rtps_receiver::wire;

fn prefix() -> GuidPrefix {
    GuidPrefix::new(&[1, 2, 3, 4, 5, 6, 7, 8, 9, 10, 11, 12])
}

fn id(value: u32) -> EntityId {
    EntityId { value }
}

fn flags(bits: u8) -> SubmessageFlags {
    SubmessageFlags { bits }
}

// A packet with these octets after the header.
fn read(octets: &[u8]) -> Result<Vec<SubmessageBody>, ReadError> {
    let mut packet = Header::new(prefix()).write_to_vec();
    packet.extend_from_slice(octets);
    Message::read_from_buffer(&packet)
        .map(|m| m.submessages.into_iter().map(|s| s.body).collect())
}

// A packet with one submessage, of which the length is filled in.
fn read_one(kind: u8, bits: u8, content: &[u8]) -> Result<Vec<SubmessageBody>, ReadError> {
    let length = content.len() as u16;
    let length = if bits & 1 == 1 { length.to_le_bytes() } else { length.to_be_bytes() };
    let mut octets = vec![kind, bits, length[0], length[1]];
    octets.extend_from_slice(content);
    read(&octets)
}

fn entity(e: EntitySubmessage) -> Result<Vec<SubmessageBody>, ReadError> {
    Ok(vec![SubmessageBody::Entity(e)])
}

fn interpreter(i: InterpreterSubmessage) -> Result<Vec<SubmessageBody>, ReadError> {
    Ok(vec![SubmessageBody::Interpreter(i)])
}

#[test]
fn numbers_in_both_byte_orders() {
    let s = [0x01, 0x02, 0x03, 0x04, 0xff, 0xff, 0xff, 0xff, 0xfe, 0x00];
    assert_eq!(wire::read_u16(&s, 1, false), 0x0203);
    assert_eq!(wire::read_u16(&s, 1, true), 0x0302);
    assert_eq!(wire::read_u32(&s, 0, false), 0x0102_0304);
    assert_eq!(wire::read_u32(&s, 0, true), 0x0403_0201);
    assert_eq!(wire::read_i32(&s, 4, true), -1);
    assert_eq!(wire::read_i64(&s, 0, false), 0x0102_0304_ffff_ffff);
    assert_eq!(wire::read_i64(&[0xff; 8], 0, true), -1);
    assert_eq!(wire::read_i64(&[0, 0, 0, 0x80, 0, 0, 0, 0], 0, true), i64::MIN);
}

#[test]
fn headers() {
    let header = Header {
        protocol_version: ProtocolVersion { major: 2, minor: 1 },
        vendor_id: VendorId { vendor_id: [1, 3] },
        guid_prefix: prefix(),
    };
    let mut octets = header.write_to_vec();
    assert_eq!(octets, b"RTPS\x02\x01\x01\x03\x01\x02\x03\x04\x05\x06\x07\x08\x09\x0a\x0b\x0c");
    assert_eq!(Header::read_from_buffer(&octets), Ok(header));
    assert_eq!(Header::read_from_buffer(&octets[..19]), Err(ReadError::UnexpectedEnd));
    octets.push(99);
    assert_eq!(Header::read_from_buffer(&octets), Ok(header));
    octets[3] = 0;
    assert_eq!(Header::read_from_buffer(&octets), Err(ReadError::NotRtps));
    let own = Header::new(prefix());
    assert_eq!(own.protocol_version, ProtocolVersion { major: 2, minor: 3 });
    assert_eq!(own.vendor_id, VendorId { vendor_id: [0x01, 0x12] });
}

#[test]
fn header_of_a_message() {
    let m = Message::read_from_buffer(&Header::new(prefix()).write_to_vec()).unwrap();
    assert_eq!(m.header, Header::new(prefix()));
    assert!(m.submessages.is_empty());
    assert!(matches!(Message::read_from_buffer(&[0; 19]), Err(ReadError::UnexpectedEnd)));
    assert!(matches!(Message::read_from_buffer(&[0; 20]), Err(ReadError::NotRtps)));
}

#[test]
fn heartbeat() {
    let expected = Heartbeat {
        reader_id: id(7),
        writer_id: id(0x0102),
        first_sn: SequenceNumber::new(3),
        last_sn: SequenceNumber::new(0x1_0000_0004),
        count: 5,
    };
    let little = [
        0, 0, 0, 7, 0, 0, 1, 2, 0, 0, 0, 0, 3, 0, 0, 0, 1, 0, 0, 0, 4, 0, 0, 0, 5, 0, 0, 0,
    ];
    let big = [
        0, 0, 0, 7, 0, 0, 1, 2, 0, 0, 0, 0, 0, 0, 0, 3, 0, 0, 0, 1, 0, 0, 0, 4, 0, 0, 0, 5,
    ];
    assert_eq!(
        read_one(0x07, 0x03, &little),
        entity(EntitySubmessage::Heartbeat(expected, flags(0x03)))
    );
    assert_eq!(
        read_one(0x07, 0x02, &big),
        entity(EntitySubmessage::Heartbeat(expected, flags(0x02)))
    );
    assert_eq!(read_one(0x07, 0x03, &little[..27]), Err(ReadError::UnexpectedEnd));
}

#[test]
fn heartbeatfrag() {
    let content = [
        0, 0, 0, 7, 0, 0, 1, 2, 0, 0, 0, 0, 3, 0, 0, 0, 8, 0, 0, 0, 0xff, 0xff, 0xff, 0xff,
    ];
    assert_eq!(
        read_one(0x13, 0x01, &content),
        entity(EntitySubmessage::HeartbeatFrag(
            HeartbeatFrag {
                reader_id: id(7),
                writer_id: id(0x0102),
                writer_sn: SequenceNumber::new(3),
                last_fragment_num: 8,
                count: -1,
            },
            flags(0x01)
        ))
    );
    assert_eq!(read_one(0x13, 0x01, &content[..23]), Err(ReadError::UnexpectedEnd));
}

#[test]
fn gap() {
    let mut content = vec![
        0, 0, 0, 7, 0, 0, 1, 2, 0, 0, 0, 0, 3, 0, 0, 0, 0, 0, 0, 0, 4, 0, 0, 0, 33, 0, 0, 0, 0, 0,
        0, 0x80, 1, 0, 0, 0,
    ];
    assert_eq!(
        read_one(0x08, 0x01, &content),
        entity(EntitySubmessage::Gap(
            Gap {
                reader_id: id(7),
                writer_id: id(0x0102),
                gap_start: SequenceNumber::new(3),
                gap_list: SequenceNumberSet {
                    bitmap_base: SequenceNumber::new(4),
                    num_bits: 33,
                    bitmap: [0x8000_0000, 1, 0, 0, 0, 0, 0, 0],
                },
            },
            flags(0x01)
        ))
    );
    content.pop();
    assert_eq!(read_one(0x08, 0x01, &content), Err(ReadError::UnexpectedEnd));
    // 257 bits.
    content[24] = 1;
    content[25] = 1;
    assert_eq!(read_one(0x08, 0x01, &content), Err(ReadError::NumberSetTooWide));
    assert_eq!(read_one(0x08, 0x01, &content[..27]), Err(ReadError::UnexpectedEnd));
    assert_eq!(read_one(0x08, 0x01, &content[..23]), Err(ReadError::UnexpectedEnd));
}

#[test]
fn acknack() {
    let content = [
        0, 0, 4, 0xc7, 0, 0, 4, 0xc2, 0, 0, 0, 0, 2, 0, 0, 0, 0, 0, 0, 0, 3, 0, 0, 0,
    ];
    assert_eq!(
        read_one(0x06, 0x03, &content),
        entity(EntitySubmessage::AckNack(
            AckNack {
                reader_id: id(0x04c7),
                writer_id: id(0x04c2),
                reader_sn_state: SequenceNumberSet {
                    bitmap_base: SequenceNumber::new(2),
                    num_bits: 0,
                    bitmap: [0; 8],
                },
                count: 3,
            },
            flags(0x03)
        ))
    );
    assert_eq!(read_one(0x06, 0x03, &content[..23]), Err(ReadError::UnexpectedEnd));
    assert_eq!(read_one(0x06, 0x03, &content[..15]), Err(ReadError::UnexpectedEnd));
}

#[test]
fn acknack_with_the_widest_set() {
    let mut content = vec![0, 0, 4, 0xc7, 0, 0, 4, 0xc2, 0, 0, 0, 0, 0, 0, 0, 2, 0, 0, 1, 0];
    for w in 1..9u8 {
        content.extend_from_slice(&[0, 0, 0, w]);
    }
    content.extend_from_slice(&[0, 0, 0, 9]);
    match read_one(0x06, 0x00, &content) {
        Ok(v) => match &v[0] {
            SubmessageBody::Entity(EntitySubmessage::AckNack(a, _)) => {
                assert_eq!(a.reader_sn_state.num_bits, 256);
                assert_eq!(a.reader_sn_state.bitmap, [1, 2, 3, 4, 5, 6, 7, 8]);
                assert_eq!(a.count, 9);
            }
            b => panic!("unexpected {:?}", b),
        },
        Err(e) => panic!("unexpected {:?}", e),
    }
}

#[test]
fn nackfrag() {
    let content = [
        0, 0, 0, 7, 0, 0, 1, 2, 0, 0, 0, 0, 3, 0, 0, 0, 4, 0, 0, 0, 1, 0, 0, 0, 0, 0, 0, 0x80, 6,
        0, 0, 0,
    ];
    assert_eq!(
        read_one(0x12, 0x01, &content),
        entity(EntitySubmessage::NackFrag(
            NackFrag {
                reader_id: id(7),
                writer_id: id(0x0102),
                writer_sn: SequenceNumber::new(3),
                fragment_number_state: FragmentNumberSet {
                    bitmap_base: 4,
                    num_bits: 1,
                    bitmap: [0x8000_0000, 0, 0, 0, 0, 0, 0, 0],
                },
                count: 6,
            },
            flags(0x01)
        ))
    );
    assert_eq!(read_one(0x12, 0x01, &content[..31]), Err(ReadError::UnexpectedEnd));
    assert_eq!(read_one(0x12, 0x01, &content[..19]), Err(ReadError::UnexpectedEnd));
}

#[test]
fn info_timestamp() {
    let content = [1, 0, 0, 0, 2, 0, 0, 0];
    assert_eq!(
        read_one(0x09, 0x01, &content),
        interpreter(InterpreterSubmessage::InfoTimestamp(
            InfoTimestamp { timestamp: Some(Timestamp { seconds: 1, fraction: 2 }) },
            flags(0x01)
        ))
    );
    assert_eq!(
        read_one(0x09, 0x03, &[]),
        interpreter(InterpreterSubmessage::InfoTimestamp(
            InfoTimestamp { timestamp: None },
            flags(0x03)
        ))
    );
    assert_eq!(read_one(0x09, 0x01, &content[..7]), Err(ReadError::UnexpectedEnd));
}

#[test]
fn info_source_and_destination() {
    let mut content = vec![0, 0, 0, 0, 2, 1, 1, 15];
    content.extend_from_slice(&prefix().bytes);
    assert_eq!(
        read_one(0x0c, 0x01, &content),
        interpreter(InterpreterSubmessage::InfoSource(
            InfoSource {
                protocol_version: ProtocolVersion { major: 2, minor: 1 },
                vendor_id: VendorId { vendor_id: [1, 15] },
                guid_prefix: prefix(),
            },
            flags(0x01)
        ))
    );
    assert_eq!(read_one(0x0c, 0x01, &content[..19]), Err(ReadError::UnexpectedEnd));
    assert_eq!(
        read_one(0x0e, 0x01, &prefix().bytes),
        interpreter(InterpreterSubmessage::InfoDestination(
            InfoDestination { guid_prefix: prefix() },
            flags(0x01)
        ))
    );
    assert_eq!(read_one(0x0e, 0x01, &prefix().bytes[..11]), Err(ReadError::UnexpectedEnd));
}

#[test]
fn info_reply() {
    let mut content = vec![2, 0, 0, 0];
    // UDP over IPv4.
    content.extend_from_slice(&[1, 0, 0, 0, 0xe8, 0x1c, 0, 0]);
    content.extend_from_slice(&[0, 0, 0, 0, 0, 0, 0, 0, 0, 0, 0, 0, 10, 0, 0, 1]);
    content.extend_from_slice(&[0xff, 0xff, 0xff, 0xff, 0, 0, 0, 0]);
    content.extend_from_slice(&[0; 16]);
    let unicast = vec![
        Locator::UdpV4 { address: [10, 0, 0, 1], port: 7400 },
        Locator::Invalid,
    ];
    assert_eq!(
        read_one(0x0f, 0x01, &content),
        interpreter(InterpreterSubmessage::InfoReply(
            InfoReply { unicast_locator_list: unicast.clone(), multicast_locator_list: None },
            flags(0x01)
        ))
    );
    // The flags promise a second list.
    assert_eq!(read_one(0x0f, 0x03, &content), Err(ReadError::UnexpectedEnd));
    content.extend_from_slice(&[3, 0, 0, 0]);
    content.extend_from_slice(&[2, 0, 0, 0, 1, 0, 0, 0]);
    content.extend_from_slice(&[6; 16]);
    content.extend_from_slice(&[0; 24]);
    content.extend_from_slice(&[9, 0, 0, 0, 2, 0, 0, 0]);
    content.extend_from_slice(&[5; 16]);
    assert_eq!(
        read_one(0x0f, 0x03, &content),
        interpreter(InterpreterSubmessage::InfoReply(
            InfoReply {
                unicast_locator_list: unicast,
                multicast_locator_list: Some(vec![
                    Locator::UdpV6 { address: [6; 16], port: 1 },
                    Locator::Reserved,
                    Locator::Other { kind: 9, port: 2, address: [5; 16] },
                ]),
            },
            flags(0x03)
        ))
    );
    content.pop();
    assert_eq!(read_one(0x0f, 0x03, &content), Err(ReadError::UnexpectedEnd));
    assert_eq!(read_one(0x0f, 0x01, &[0xff; 4]), Err(ReadError::UnexpectedEnd));
    assert_eq!(read_one(0x0f, 0x01, &[0xff; 3]), Err(ReadError::UnexpectedEnd));
}

fn data_fields(octets_to_inline_qos: u8) -> Vec<u8> {
    vec![
        0, 0, octets_to_inline_qos, 0, 0, 0, 0, 7, 0, 0, 1, 2, 0, 0, 0, 0, 91, 0, 0, 0,
    ]
}

fn data(inline_qos: Option<Vec<u8>>, payload: Option<(u8, Vec<u8>)>) -> Data {
    Data {
        reader_id: id(7),
        writer_id: id(0x0102),
        writer_sn: SequenceNumber::new(91),
        inline_qos,
        serialized_payload: payload.map(|(kind, value)| SerializedPayload {
            representation_identifier: [0, kind],
            representation_options: [0, 0],
            value,
        }),
    }
}

#[test]
fn data_with_and_without_payload() {
    let mut content = data_fields(16);
    assert_eq!(
        read_one(0x15, 0x01, &content),
        entity(EntitySubmessage::Data(data(None, None), flags(0x01)))
    );
    assert_eq!(read_one(0x15, 0x05, &content), Err(ReadError::UnexpectedEnd));
    content.extend_from_slice(&[0, 1, 0, 0, 42, 43]);
    assert_eq!(
        read_one(0x15, 0x05, &content),
        entity(EntitySubmessage::Data(data(None, Some((1, vec![42, 43]))), flags(0x05)))
    );
    assert_eq!(
        read_one(0x15, 0x09, &content),
        entity(EntitySubmessage::Data(data(None, Some((1, vec![42, 43]))), flags(0x09)))
    );
    assert_eq!(read_one(0x15, 0x05, &content[..19]), Err(ReadError::UnexpectedEnd));
    assert_eq!(read_one(0x15, 0x05, &content[..23]), Err(ReadError::UnexpectedEnd));
}

#[test]
fn data_with_inline_parameters() {
    let qos = vec![0x70, 0, 4, 0, 1, 2, 3, 4, 1, 0, 0, 0];
    let mut content = data_fields(16);
    content.extend_from_slice(&qos);
    assert_eq!(
        read_one(0x15, 0x03, &content),
        entity(EntitySubmessage::Data(data(Some(qos.clone()), None), flags(0x03)))
    );
    // No end marker.
    assert_eq!(read_one(0x15, 0x03, &content[..28]), Err(ReadError::UnexpectedEnd));
    // A parameter that is longer than what is left.
    assert_eq!(read_one(0x15, 0x03, &content[..27]), Err(ReadError::UnexpectedEnd));
    content.extend_from_slice(&[0, 3, 0, 0, 44]);
    assert_eq!(
        read_one(0x15, 0x07, &content),
        entity(EntitySubmessage::Data(data(Some(qos), Some((3, vec![44]))), flags(0x07)))
    );
}

#[test]
fn data_with_an_offset() {
    // Two octets that are not known here stand before the payload.
    let mut content = data_fields(18);
    content.extend_from_slice(&[9, 9, 0, 1, 0, 0, 42]);
    assert_eq!(
        read_one(0x15, 0x05, &content),
        entity(EntitySubmessage::Data(data(None, Some((1, vec![42]))), flags(0x05)))
    );
    assert_eq!(read_one(0x15, 0x05, &data_fields(15)), Err(ReadError::InlineQosOverlap));
    assert_eq!(read_one(0x15, 0x01, &data_fields(17)), Err(ReadError::UnexpectedEnd));
}

#[test]
fn datafrag() {
    let mut content = data_fields(28);
    content.extend_from_slice(&[1, 0, 0, 0, 2, 0, 0, 4, 0, 16, 0, 0]);
    assert_eq!(read_one(0x16, 0x01, &content[..31]), Err(ReadError::UnexpectedEnd));
    content.extend_from_slice(&[5, 6, 7]);
    assert_eq!(
        read_one(0x16, 0x01, &content),
        entity(EntitySubmessage::DataFrag(
            DataFrag {
                reader_id: id(7),
                writer_id: id(0x0102),
                writer_sn: SequenceNumber::new(91),
                fragment_starting_num: 1,
                fragments_in_submessage: 2,
                fragment_size: 1024,
                data_size: 4096,
                inline_qos: None,
                serialized_payload: vec![5, 6, 7],
            },
            flags(0x01)
        ))
    );
    content[2] = 27;
    assert_eq!(read_one(0x16, 0x01, &content), Err(ReadError::InlineQosOverlap));
}

#[test]
fn padding_and_unknown_kinds_are_skipped() {
    let end = [0x09, 0x03, 0, 0];
    let expected = interpreter(InterpreterSubmessage::InfoTimestamp(
        InfoTimestamp { timestamp: None },
        flags(0x03),
    ));
    for start in [
        &[0x01, 0x01, 0, 0][..],
        &[0x01, 0x01, 2, 0, 9, 9][..],
        &[0x80, 0x00, 0, 1, 9][..],
        &[0x0d, 0x01, 1, 0, 9][..],
    ] {
        let mut octets = start.to_vec();
        octets.extend_from_slice(&end);
        assert_eq!(read(&octets), expected);
    }
    assert_eq!(read(&[0x80, 0x00, 0, 0, 9, 9, 9]), Ok(vec![]));
}

#[test]
fn lengths() {
    // A length of zero stands for the rest of the message.
    let mut octets = vec![0x15, 0x05, 0, 0];
    octets.extend_from_slice(&data_fields(16));
    octets.extend_from_slice(&[0, 1, 0, 0, 42]);
    assert_eq!(
        read(&octets),
        entity(EntitySubmessage::Data(data(None, Some((1, vec![42]))), flags(0x05)))
    );
    // Octets after the last field are left unread.
    let mut long = vec![0x0e, 0x01, 13, 0];
    long.extend_from_slice(&prefix().bytes);
    long.push(77);
    assert_eq!(
        read(&long),
        interpreter(InterpreterSubmessage::InfoDestination(
            InfoDestination { guid_prefix: prefix() },
            flags(0x01)
        ))
    );
    // More than there is.
    long.pop();
    assert_eq!(read(&long), Err(ReadError::UnexpectedEnd));
    assert_eq!(read(&[0x0e, 0x01, 0]), Err(ReadError::UnexpectedEnd));
}

#[test]
fn flags_contain_masks() {
    assert!(flags(0x07).contains(0x05));
    assert!(!flags(0x07).contains(0x09));
    assert!(flags(0x00).contains(0x00));
}
