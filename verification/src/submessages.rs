//! The submessages that a message is made of.
//!
//! A type that owns octets or a list has a view, named after it, in which
//! sequences stand for them; every other type is its own view.
use vstd::prelude::*;

use crate::elements::FragmentNumberSet;
use crate::elements::Locator;
use crate::elements::ProtocolVersion;
use crate::elements::SequenceNumber;
use crate::elements::SequenceNumberSet;
use crate::elements::Timestamp;
use crate::elements::VendorId;
use crate::guid::EntityId;
use crate::guid::GuidPrefix;

verus! {

/// In every submessage: its numbers are little endian.
pub const FLAG_ENDIANNESS: u8 = 0x01;

/// In DATA and DATA_FRAG: parameters stand before the payload.
pub const DATA_FLAG_INLINE_QOS: u8 = 0x02;

/// In DATA: the payload is a value.
pub const DATA_FLAG_DATA: u8 = 0x04;

/// In DATA: the payload is a key.
pub const DATA_FLAG_KEY: u8 = 0x08;

/// In HEARTBEAT: the reader need not answer.
pub const HEARTBEAT_FLAG_FINAL: u8 = 0x02;

/// In INFO_REPLY: a list of multicast locators follows the unicast one.
pub const INFOREPLY_FLAG_MULTICAST: u8 = 0x02;

/// In INFO_TS: there is no timestamp.
pub const INFOTIMESTAMP_FLAG_INVALIDATE: u8 = 0x02;

/// The flags octet of a submessage.
#[derive(Clone, Copy, Debug, PartialEq, Eq, Structural)]
pub struct SubmessageFlags {
    pub bits: u8,
}

impl SubmessageFlags {
    /// Whether all bits of `mask` are set.
    #[verifier::allow_in_spec]
    pub fn contains(&self, mask: u8) -> bool
        returns
            self.bits & mask == mask,
    {
        self.bits & mask == mask
    }
}

/// A sample, as a writer serialized it.
#[derive(Debug, PartialEq, Eq)]
pub struct SerializedPayload {
    pub representation_identifier: [u8; 2],
    pub representation_options: [u8; 2],
    pub value: Vec<u8>,
}

pub struct SerializedPayloadView {
    pub representation_identifier: [u8; 2],
    pub representation_options: [u8; 2],
    pub value: Seq<u8>,
}

impl View for SerializedPayload {
    type V = SerializedPayloadView;

    open spec fn view(&self) -> SerializedPayloadView {
        SerializedPayloadView {
            representation_identifier: self.representation_identifier,
            representation_options: self.representation_options,
            value: self.value@,
        }
    }
}

impl Clone for SerializedPayload {
    fn clone(&self) -> (r: SerializedPayload)
        ensures
            r@ == self@,
    {
        let value = self.value.clone();
        assert(value@ =~= self.value@);
        SerializedPayload {
            representation_identifier: self.representation_identifier,
            representation_options: self.representation_options,
            value,
        }
    }
}

/// DATA: a change that a writer made. `inline_qos` holds the parameters in
/// their encoded form, up to and including the end marker.
#[derive(Debug, PartialEq, Eq)]
pub struct Data {
    pub reader_id: EntityId,
    pub writer_id: EntityId,
    pub writer_sn: SequenceNumber,
    pub inline_qos: Option<Vec<u8>>,
    pub serialized_payload: Option<SerializedPayload>,
}

pub struct DataView {
    pub reader_id: EntityId,
    pub writer_id: EntityId,
    pub writer_sn: SequenceNumber,
    pub inline_qos: Option<Seq<u8>>,
    pub serialized_payload: Option<SerializedPayloadView>,
}

/// The octets of an optional buffer.
pub open spec fn octets_view(o: Option<Vec<u8>>) -> Option<Seq<u8>> {
    match o {
        Some(v) => Some(v@),
        None => None,
    }
}

fn clone_octets(o: &Option<Vec<u8>>) -> (r: Option<Vec<u8>>)
    ensures
        octets_view(r) == octets_view(*o),
{
    match o {
        Some(v) => {
            let w = v.clone();
            assert(w@ =~= v@);
            Some(w)
        },
        None => None,
    }
}

impl View for Data {
    type V = DataView;

    open spec fn view(&self) -> DataView {
        DataView {
            reader_id: self.reader_id,
            writer_id: self.writer_id,
            writer_sn: self.writer_sn,
            inline_qos: octets_view(self.inline_qos),
            serialized_payload: match self.serialized_payload {
                Some(p) => Some(p@),
                None => None,
            },
        }
    }
}

impl Clone for Data {
    fn clone(&self) -> (r: Data)
        ensures
            r@ == self@,
    {
        Data {
            reader_id: self.reader_id,
            writer_id: self.writer_id,
            writer_sn: self.writer_sn,
            inline_qos: clone_octets(&self.inline_qos),
            serialized_payload: match &self.serialized_payload {
                Some(p) => Some(p.clone()),
                None => None,
            },
        }
    }
}

/// DATA_FRAG: some fragments of a change.
#[derive(Debug, PartialEq, Eq)]
pub struct DataFrag {
    pub reader_id: EntityId,
    pub writer_id: EntityId,
    pub writer_sn: SequenceNumber,
    pub fragment_starting_num: u32,
    pub fragments_in_submessage: u16,
    pub fragment_size: u16,
    pub data_size: u32,
    pub inline_qos: Option<Vec<u8>>,
    pub serialized_payload: Vec<u8>,
}

pub struct DataFragView {
    pub reader_id: EntityId,
    pub writer_id: EntityId,
    pub writer_sn: SequenceNumber,
    pub fragment_starting_num: u32,
    pub fragments_in_submessage: u16,
    pub fragment_size: u16,
    pub data_size: u32,
    pub inline_qos: Option<Seq<u8>>,
    pub serialized_payload: Seq<u8>,
}

impl View for DataFrag {
    type V = DataFragView;

    open spec fn view(&self) -> DataFragView {
        DataFragView {
            reader_id: self.reader_id,
            writer_id: self.writer_id,
            writer_sn: self.writer_sn,
            fragment_starting_num: self.fragment_starting_num,
            fragments_in_submessage: self.fragments_in_submessage,
            fragment_size: self.fragment_size,
            data_size: self.data_size,
            inline_qos: octets_view(self.inline_qos),
            serialized_payload: self.serialized_payload@,
        }
    }
}

impl Clone for DataFrag {
    fn clone(&self) -> (r: DataFrag)
        ensures
            r@ == self@,
    {
        let serialized_payload = self.serialized_payload.clone();
        assert(serialized_payload@ =~= self.serialized_payload@);
        DataFrag {
            reader_id: self.reader_id,
            writer_id: self.writer_id,
            writer_sn: self.writer_sn,
            fragment_starting_num: self.fragment_starting_num,
            fragments_in_submessage: self.fragments_in_submessage,
            fragment_size: self.fragment_size,
            data_size: self.data_size,
            inline_qos: clone_octets(&self.inline_qos),
            serialized_payload,
        }
    }
}

/// HEARTBEAT: which changes a writer has.
#[derive(Clone, Copy, Debug, PartialEq, Eq)]
pub struct Heartbeat {
    pub reader_id: EntityId,
    pub writer_id: EntityId,
    pub first_sn: SequenceNumber,
    pub last_sn: SequenceNumber,
    pub count: i32,
}

/// HEARTBEAT_FRAG: which fragments of a change a writer has.
#[derive(Clone, Copy, Debug, PartialEq, Eq)]
pub struct HeartbeatFrag {
    pub reader_id: EntityId,
    pub writer_id: EntityId,
    pub writer_sn: SequenceNumber,
    pub last_fragment_num: u32,
    pub count: i32,
}

/// GAP: changes that are no longer relevant.
#[derive(Clone, Copy, Debug, PartialEq, Eq)]
pub struct Gap {
    pub reader_id: EntityId,
    pub writer_id: EntityId,
    pub gap_start: SequenceNumber,
    pub gap_list: SequenceNumberSet,
}

/// ACKNACK: which changes a reader has and lacks.
#[derive(Clone, Copy, Debug, PartialEq, Eq)]
pub struct AckNack {
    pub reader_id: EntityId,
    pub writer_id: EntityId,
    pub reader_sn_state: SequenceNumberSet,
    pub count: i32,
}

/// NACK_FRAG: which fragments of a change a reader lacks.
#[derive(Clone, Copy, Debug, PartialEq, Eq)]
pub struct NackFrag {
    pub reader_id: EntityId,
    pub writer_id: EntityId,
    pub writer_sn: SequenceNumber,
    pub fragment_number_state: FragmentNumberSet,
    pub count: i32,
}

/// An acknowledgement on its way to the local writers.
#[derive(Clone, Copy, Debug, PartialEq, Eq)]
pub enum AckSubmessage {
    AckNack(AckNack),
}

/// A submessage that one endpoint addresses to another.
#[derive(Debug, PartialEq, Eq)]
pub enum EntitySubmessage {
    AckNack(AckNack, SubmessageFlags),
    Data(Data, SubmessageFlags),
    DataFrag(DataFrag, SubmessageFlags),
    Gap(Gap, SubmessageFlags),
    Heartbeat(Heartbeat, SubmessageFlags),
    HeartbeatFrag(HeartbeatFrag, SubmessageFlags),
    NackFrag(NackFrag, SubmessageFlags),
}

pub enum EntitySubmessageView {
    AckNack(AckNack, SubmessageFlags),
    Data(DataView, SubmessageFlags),
    DataFrag(DataFragView, SubmessageFlags),
    Gap(Gap, SubmessageFlags),
    Heartbeat(Heartbeat, SubmessageFlags),
    HeartbeatFrag(HeartbeatFrag, SubmessageFlags),
    NackFrag(NackFrag, SubmessageFlags),
}

impl View for EntitySubmessage {
    type V = EntitySubmessageView;

    open spec fn view(&self) -> EntitySubmessageView {
        match *self {
            EntitySubmessage::AckNack(a, f) => EntitySubmessageView::AckNack(a, f),
            EntitySubmessage::Data(d, f) => EntitySubmessageView::Data(d@, f),
            EntitySubmessage::DataFrag(d, f) => EntitySubmessageView::DataFrag(d@, f),
            EntitySubmessage::Gap(g, f) => EntitySubmessageView::Gap(g, f),
            EntitySubmessage::Heartbeat(h, f) => EntitySubmessageView::Heartbeat(h, f),
            EntitySubmessage::HeartbeatFrag(h, f) => EntitySubmessageView::HeartbeatFrag(h, f),
            EntitySubmessage::NackFrag(n, f) => EntitySubmessageView::NackFrag(n, f),
        }
    }
}

/// INFO_TS: the time that goes with the submessages after it, if any.
#[derive(Clone, Copy, Debug, PartialEq, Eq)]
pub struct InfoTimestamp {
    pub timestamp: Option<Timestamp>,
}

/// INFO_SRC: who sent the submessages after it.
#[derive(Clone, Copy, Debug, PartialEq, Eq)]
pub struct InfoSource {
    pub protocol_version: ProtocolVersion,
    pub vendor_id: VendorId,
    pub guid_prefix: GuidPrefix,
}

/// INFO_DST: whom the submessages after it are for.
#[derive(Clone, Copy, Debug, PartialEq, Eq)]
pub struct InfoDestination {
    pub guid_prefix: GuidPrefix,
}

/// INFO_REPLY: where replies to the submessages after it go.
#[derive(Debug, PartialEq, Eq)]
pub struct InfoReply {
    pub unicast_locator_list: Vec<Locator>,
    pub multicast_locator_list: Option<Vec<Locator>>,
}

pub struct InfoReplyView {
    pub unicast_locator_list: Seq<Locator>,
    pub multicast_locator_list: Option<Seq<Locator>>,
}

impl View for InfoReply {
    type V = InfoReplyView;

    open spec fn view(&self) -> InfoReplyView {
        InfoReplyView {
            unicast_locator_list: self.unicast_locator_list@,
            multicast_locator_list: match self.multicast_locator_list {
                Some(l) => Some(l@),
                None => None,
            },
        }
    }
}

/// A submessage that tells the receiver how to take those after it.
#[derive(Debug, PartialEq, Eq)]
pub enum InterpreterSubmessage {
    InfoSource(InfoSource, SubmessageFlags),
    InfoDestination(InfoDestination, SubmessageFlags),
    InfoReply(InfoReply, SubmessageFlags),
    InfoTimestamp(InfoTimestamp, SubmessageFlags),
}

pub enum InterpreterSubmessageView {
    InfoSource(InfoSource, SubmessageFlags),
    InfoDestination(InfoDestination, SubmessageFlags),
    InfoReply(InfoReplyView, SubmessageFlags),
    InfoTimestamp(InfoTimestamp, SubmessageFlags),
}

impl View for InterpreterSubmessage {
    type V = InterpreterSubmessageView;

    open spec fn view(&self) -> InterpreterSubmessageView {
        match *self {
            InterpreterSubmessage::InfoSource(s, f) => InterpreterSubmessageView::InfoSource(s, f),
            InterpreterSubmessage::InfoDestination(d, f) => {
                InterpreterSubmessageView::InfoDestination(d, f)
            },
            InterpreterSubmessage::InfoReply(r, f) => InterpreterSubmessageView::InfoReply(r@, f),
            InterpreterSubmessage::InfoTimestamp(t, f) => {
                InterpreterSubmessageView::InfoTimestamp(t, f)
            },
        }
    }
}

impl InterpreterSubmessageView {
    /// An INFO_REPLY whose flags promise multicast locators holds them.
    pub open spec fn wf(self) -> bool {
        self matches InterpreterSubmessageView::InfoReply(r, f) ==> f.contains(
            INFOREPLY_FLAG_MULTICAST,
        ) ==> r.multicast_locator_list is Some
    }
}

#[derive(Debug, PartialEq, Eq)]
pub enum SubmessageBody {
    Entity(EntitySubmessage),
    Interpreter(InterpreterSubmessage),
}

pub enum SubmessageBodyView {
    Entity(EntitySubmessageView),
    Interpreter(InterpreterSubmessageView),
}

impl View for SubmessageBody {
    type V = SubmessageBodyView;

    open spec fn view(&self) -> SubmessageBodyView {
        match *self {
            SubmessageBody::Entity(e) => SubmessageBodyView::Entity(e@),
            SubmessageBody::Interpreter(i) => SubmessageBodyView::Interpreter(i@),
        }
    }
}

impl SubmessageBodyView {
    /// See [`InterpreterSubmessageView::wf`].
    pub open spec fn wf(self) -> bool {
        self matches SubmessageBodyView::Interpreter(i) ==> i.wf()
    }
}

#[derive(Debug, PartialEq, Eq)]
pub struct Submessage {
    pub body: SubmessageBody,
}

impl View for Submessage {
    type V = SubmessageBodyView;

    open spec fn view(&self) -> SubmessageBodyView {
        self.body@
    }
}

} // verus!
