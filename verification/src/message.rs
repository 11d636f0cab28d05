//! Messages, and how they are read from packets.
use vstd::prelude::*;
use vstd::slice::slice_subrange;

use crate::codec;
use crate::elements::ReadError;
use crate::header;
use crate::header::Header;
use crate::header::RTPS_MESSAGE_HEADER_SIZE;
use crate::model::MessageView;
use crate::submessages::EntitySubmessage;
use crate::submessages::EntitySubmessageView;
use crate::submessages::FLAG_ENDIANNESS;
use crate::submessages::INFOREPLY_FLAG_MULTICAST;
use crate::submessages::InterpreterSubmessage;
use crate::submessages::InterpreterSubmessageView;
use crate::submessages::Submessage;
use crate::submessages::SubmessageBody;
use crate::submessages::SubmessageBodyView;
use crate::submessages::SubmessageFlags;
use crate::wire;

verus! {

pub const KIND_PAD: u8 = 0x01;

pub const KIND_ACKNACK: u8 = 0x06;

pub const KIND_HEARTBEAT: u8 = 0x07;

pub const KIND_GAP: u8 = 0x08;

pub const KIND_INFO_TS: u8 = 0x09;

pub const KIND_INFO_SRC: u8 = 0x0c;

pub const KIND_INFO_DST: u8 = 0x0e;

pub const KIND_INFO_REPLY: u8 = 0x0f;

pub const KIND_NACK_FRAG: u8 = 0x12;

pub const KIND_HEARTBEAT_FRAG: u8 = 0x13;

pub const KIND_DATA: u8 = 0x15;

pub const KIND_DATA_FRAG: u8 = 0x16;

/// A message: its header, and its submessages in order.
#[derive(Debug)]
pub struct Message {
    pub header: Header,
    pub submessages: Vec<Submessage>,
}

impl View for Message {
    type V = MessageView;

    open spec fn view(&self) -> MessageView {
        MessageView {
            header: self.header,
            submessages: self.submessages@.map_values(|s: Submessage| s@),
        }
    }
}

/// An entity submessage, once its content has been read.
pub open spec fn entity<T>(
    content: Result<T, ReadError>,
    make: spec_fn(T) -> EntitySubmessageView,
) -> Result<Option<SubmessageBodyView>, ReadError> {
    match content {
        Ok(x) => Ok(Some(SubmessageBodyView::Entity(make(x)))),
        Err(e) => Err(e),
    }
}

/// An interpreter submessage, once its content has been read.
pub open spec fn interpreter<T>(
    content: Result<T, ReadError>,
    make: spec_fn(T) -> InterpreterSubmessageView,
) -> Result<Option<SubmessageBodyView>, ReadError> {
    match content {
        Ok(x) => Ok(Some(SubmessageBodyView::Interpreter(make(x)))),
        Err(e) => Err(e),
    }
}

/// What a submessage of this kind says. Padding and kinds that are not known
/// say nothing.
#[verifier::opaque]
pub open spec fn body_of(kind: u8, f: SubmessageFlags, c: Seq<u8>) -> Result<
    Option<SubmessageBodyView>,
    ReadError,
> {
    let little = f.contains(FLAG_ENDIANNESS);
    if kind == KIND_DATA {
        entity(codec::data_of(c, f), |x| EntitySubmessageView::Data(x, f))
    } else if kind == KIND_DATA_FRAG {
        entity(codec::datafrag_of(c, f), |x| EntitySubmessageView::DataFrag(x, f))
    } else if kind == KIND_HEARTBEAT {
        entity(codec::heartbeat_of(c, little), |x| EntitySubmessageView::Heartbeat(x, f))
    } else if kind == KIND_HEARTBEAT_FRAG {
        entity(codec::heartbeatfrag_of(c, little), |x| EntitySubmessageView::HeartbeatFrag(x, f))
    } else if kind == KIND_GAP {
        entity(codec::gap_of(c, little), |x| EntitySubmessageView::Gap(x, f))
    } else if kind == KIND_ACKNACK {
        entity(codec::acknack_of(c, little), |x| EntitySubmessageView::AckNack(x, f))
    } else if kind == KIND_NACK_FRAG {
        entity(codec::nackfrag_of(c, little), |x| EntitySubmessageView::NackFrag(x, f))
    } else if kind == KIND_INFO_TS {
        interpreter(
            codec::info_timestamp_of(c, f),
            |x| InterpreterSubmessageView::InfoTimestamp(x, f),
        )
    } else if kind == KIND_INFO_SRC {
        interpreter(codec::info_source_of(c), |x| InterpreterSubmessageView::InfoSource(x, f))
    } else if kind == KIND_INFO_DST {
        interpreter(
            codec::info_destination_of(c),
            |x| InterpreterSubmessageView::InfoDestination(x, f),
        )
    } else if kind == KIND_INFO_REPLY {
        interpreter(codec::info_reply_of(c, f), |x| InterpreterSubmessageView::InfoReply(x, f))
    } else {
        Ok(None)
    }
}

/// Reads [`body_of`].
fn read_body(kind: u8, f: SubmessageFlags, c: &[u8]) -> (r: Result<
    Option<SubmessageBody>,
    ReadError,
>)
    ensures
        match r {
            Ok(Some(b)) => body_of(kind, f, c@) == Ok::<Option<SubmessageBodyView>, ReadError>(
                Some(b@),
            ),
            Ok(None) => body_of(kind, f, c@) == Ok::<Option<SubmessageBodyView>, ReadError>(None),
            Err(e) => body_of(kind, f, c@) == Err::<Option<SubmessageBodyView>, ReadError>(e),
        },
{
    reveal(body_of);
    let little: bool = f.contains(FLAG_ENDIANNESS);
    if kind == KIND_DATA {
        match codec::read_data(c, f) {
            Ok(x) => Ok(Some(SubmessageBody::Entity(EntitySubmessage::Data(x, f)))),
            Err(e) => Err(e),
        }
    } else if kind == KIND_DATA_FRAG {
        match codec::read_datafrag(c, f) {
            Ok(x) => Ok(Some(SubmessageBody::Entity(EntitySubmessage::DataFrag(x, f)))),
            Err(e) => Err(e),
        }
    } else if kind == KIND_HEARTBEAT {
        match codec::read_heartbeat(c, little) {
            Ok(x) => Ok(Some(SubmessageBody::Entity(EntitySubmessage::Heartbeat(x, f)))),
            Err(e) => Err(e),
        }
    } else if kind == KIND_HEARTBEAT_FRAG {
        match codec::read_heartbeatfrag(c, little) {
            Ok(x) => Ok(Some(SubmessageBody::Entity(EntitySubmessage::HeartbeatFrag(x, f)))),
            Err(e) => Err(e),
        }
    } else if kind == KIND_GAP {
        match codec::read_gap(c, little) {
            Ok(x) => Ok(Some(SubmessageBody::Entity(EntitySubmessage::Gap(x, f)))),
            Err(e) => Err(e),
        }
    } else if kind == KIND_ACKNACK {
        match codec::read_acknack(c, little) {
            Ok(x) => Ok(Some(SubmessageBody::Entity(EntitySubmessage::AckNack(x, f)))),
            Err(e) => Err(e),
        }
    } else if kind == KIND_NACK_FRAG {
        match codec::read_nackfrag(c, little) {
            Ok(x) => Ok(Some(SubmessageBody::Entity(EntitySubmessage::NackFrag(x, f)))),
            Err(e) => Err(e),
        }
    } else if kind == KIND_INFO_TS {
        match codec::read_info_timestamp(c, f) {
            Ok(x) => Ok(
                Some(SubmessageBody::Interpreter(InterpreterSubmessage::InfoTimestamp(x, f))),
            ),
            Err(e) => Err(e),
        }
    } else if kind == KIND_INFO_SRC {
        match codec::read_info_source(c) {
            Ok(x) => Ok(Some(SubmessageBody::Interpreter(InterpreterSubmessage::InfoSource(x, f)))),
            Err(e) => Err(e),
        }
    } else if kind == KIND_INFO_DST {
        match codec::read_info_destination(c) {
            Ok(x) => Ok(
                Some(SubmessageBody::Interpreter(InterpreterSubmessage::InfoDestination(x, f))),
            ),
            Err(e) => Err(e),
        }
    } else if kind == KIND_INFO_REPLY {
        match codec::read_info_reply(c, f) {
            Ok(x) => Ok(Some(SubmessageBody::Interpreter(InterpreterSubmessage::InfoReply(x, f)))),
            Err(e) => Err(e),
        }
    } else {
        Ok(None)
    }
}

/// How many octets of content the submessage at the start of `s` has, if
/// they are there. A length of zero means that the submessage takes up the
/// rest of the message, unless it is one that may be empty.
pub open spec fn content_size(s: Seq<u8>) -> Result<nat, ReadError> {
    if s.len() < 4 {
        Err(ReadError::UnexpectedEnd)
    } else {
        let flags = SubmessageFlags { bits: s[1] };
        let declared = wire::u16_at(s, 2, flags.contains(FLAG_ENDIANNESS));
        let size = if declared == 0 && s[0] != KIND_PAD && s[0] != KIND_INFO_TS {
            (s.len() - 4) as nat
        } else {
            declared as nat
        };
        if 4 + size > s.len() {
            Err(ReadError::UnexpectedEnd)
        } else {
            Ok(size)
        }
    }
}

/// Reads [`content_size`].
fn read_content_size(s: &[u8]) -> (r: Result<usize, ReadError>)
    ensures
        match r {
            Ok(n) => content_size(s@) == Ok::<nat, ReadError>(n as nat) && 4 + n <= s.len(),
            Err(e) => content_size(s@) == Err::<nat, ReadError>(e),
        },
{
    if s.len() < 4 {
        return Err(ReadError::UnexpectedEnd);
    }
    let flags = SubmessageFlags { bits: s[1] };
    let declared: usize = wire::read_u16(s, 2, flags.contains(FLAG_ENDIANNESS)) as usize;
    let size: usize = if declared == 0 && s[0] != KIND_PAD && s[0] != KIND_INFO_TS {
        s.len() - 4
    } else {
        declared
    };
    if s.len() - 4 < size {
        Err(ReadError::UnexpectedEnd)
    } else {
        Ok(size)
    }
}

/// The submessages that `s` is made of, less those that say nothing.
pub open spec fn submessages_of(s: Seq<u8>) -> Result<Seq<SubmessageBodyView>, ReadError>
    decreases s.len(),
{
    if s.len() == 0 {
        Ok(seq![])
    } else {
        match content_size(s) {
            Err(e) => Err(e),
            Ok(size) => match body_of(
                s[0],
                SubmessageFlags { bits: s[1] },
                s.subrange(4, (4 + size) as int),
            ) {
                Err(e) => Err(e),
                Ok(first) => match submessages_of(s.skip((4 + size) as int)) {
                    Err(e) => Err(e),
                    Ok(rest) => Ok(
                        match first {
                            Some(body) => seq![body] + rest,
                            None => rest,
                        },
                    ),
                },
            },
        }
    }
}

/// The message that a packet holds.
pub open spec fn message_of(s: Seq<u8>) -> Result<MessageView, ReadError> {
    match header::header_of(s) {
        Err(e) => Err(e),
        Ok(header) => match submessages_of(s.skip(RTPS_MESSAGE_HEADER_SIZE as int)) {
            Err(e) => Err(e),
            Ok(submessages) => Ok(MessageView { header, submessages }),
        },
    }
}

/// The submessages `before`, and after them those of `rest`.
spec fn continued(
    before: Seq<SubmessageBodyView>,
    rest: Result<Seq<SubmessageBodyView>, ReadError>,
) -> Result<Seq<SubmessageBodyView>, ReadError> {
    match rest {
        Ok(after) => Ok(before + after),
        Err(e) => Err(e),
    }
}

impl Message {
    /// Reads a whole packet.
    pub fn read_from_buffer(buffer: &[u8]) -> (r: Result<Message, ReadError>)
        ensures
            match r {
                Ok(m) => message_of(buffer@) == Ok::<MessageView, ReadError>(m@),
                Err(e) => message_of(buffer@) == Err::<MessageView, ReadError>(e),
            },
    {
        let header = match Header::read_from_buffer(buffer) {
            Ok(h) => h,
            Err(e) => return Err(e),
        };
        let mut submessages: Vec<Submessage> = Vec::new();
        let mut left = slice_subrange(buffer, RTPS_MESSAGE_HEADER_SIZE, buffer.len());
        let ghost all = submessages_of(buffer@.skip(RTPS_MESSAGE_HEADER_SIZE as int));
        let ghost mut read: Seq<SubmessageBodyView> = seq![];
        assert(left@ =~= buffer@.skip(RTPS_MESSAGE_HEADER_SIZE as int));
        assert(submessages@.map_values(|s: Submessage| s@) =~= read);
        assert(all matches Ok(x) ==> seq![] + x =~= x);
        while left.len() > 0
            invariant
                submessages@.map_values(|s: Submessage| s@) == read,
                all == continued(read, submessages_of(left@)),
                buffer@.len() >= RTPS_MESSAGE_HEADER_SIZE,
                header::header_of(buffer@) == Ok::<Header, ReadError>(header),
                all == submessages_of(buffer@.skip(RTPS_MESSAGE_HEADER_SIZE as int)),
            decreases left.len(),
        {
            let size: usize = match read_content_size(left) {
                Ok(n) => n,
                Err(e) => return Err(e),
            };
            let flags = SubmessageFlags { bits: left[1] };
            let first = match read_body(left[0], flags, slice_subrange(left, 4, 4 + size)) {
                Ok(b) => b,
                Err(e) => return Err(e),
            };
            let rest = slice_subrange(left, 4 + size, left.len());
            assert(rest@ =~= left@.skip(4 + size));
            if let Some(body) = first {
                let ghost before = read;
                let ghost view = body@;
                submessages.push(Submessage { body });
                proof {
                    read = read.push(view);
                    if let Ok(after) = submessages_of(rest@) {
                        assert(before + (seq![view] + after) =~= read + after);
                    }
                }
                assert(submessages@.map_values(|s: Submessage| s@) =~= read);
            }
            left = rest;
        }
        assert(read + seq![] =~= read);
        Ok(Message { header, submessages })
    }

    /// Where the first submessage stands that does not hold what its flags
    /// promise, if there is one.
    pub fn first_broken(&self) -> (r: Option<usize>)
        ensures
            match r {
                Some(i) => {
                    &&& i < self@.submessages.len()
                    &&& !self@.submessages[i as int].wf()
                    &&& forall|j: int| 0 <= j < i ==> (#[trigger] self@.submessages[j]).wf()
                },
                None => self@.wf(),
            },
    {
        let ghost submessages = self@.submessages;
        let mut i: usize = 0;
        while i < self.submessages.len()
            invariant
                i <= self.submessages.len(),
                submessages == self@.submessages,
                forall|j: int| 0 <= j < i ==> (#[trigger] submessages[j]).wf(),
            decreases self.submessages.len() - i,
        {
            assert(submessages[i as int] == self.submessages@[i as int]@);
            if let SubmessageBody::Interpreter(InterpreterSubmessage::InfoReply(info, flags)) =
                &self.submessages[i].body {
                if flags.contains(INFOREPLY_FLAG_MULTICAST)
                    && info.multicast_locator_list.is_none() {
                    return Some(i);
                }
            }
            i = i + 1;
        }
        None
    }
}

/// Every message that can be read holds what its flags promise.
pub proof fn lemma_read_message_is_wf(s: Seq<u8>)
    ensures
        message_of(s) matches Ok(m) ==> m.wf(),
{
    lemma_read_submessages_are_wf(s.skip(RTPS_MESSAGE_HEADER_SIZE as int));
}

proof fn lemma_read_submessages_are_wf(s: Seq<u8>)
    ensures
        submessages_of(s) matches Ok(m) ==> forall|i: int|
            0 <= i < m.len() ==> (#[trigger] m[i]).wf(),
    decreases s.len(),
{
    reveal(body_of);
    if s.len() > 0 {
        if let Ok(size) = content_size(s) {
            lemma_read_submessages_are_wf(s.skip((4 + size) as int));
        }
    }
}

} // verus!
