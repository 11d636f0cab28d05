//! The local readers, as the message receiver sees them: an identity, the
//! writers they are matched with, and the changes that they have been handed.
use vstd::prelude::*;

use crate::elements::SequenceNumber;
use crate::elements::Timestamp;
use crate::guid::EntityId;
use crate::guid::GUID;
use crate::message_receiver::MessageReceiverState;
use crate::message_receiver::MessageReceiverStateView;
use crate::submessages::Data;
use crate::submessages::DataFrag;
use crate::submessages::DataFragView;
use crate::submessages::DataView;
use crate::submessages::Gap;
use crate::submessages::Heartbeat;
use crate::submessages::HeartbeatFrag;
use crate::submessages::SerializedPayload;
use crate::submessages::SerializedPayloadView;
use crate::submessages::SubmessageFlags;

verus! {

/// Something a reader is to act on.
#[derive(Debug)]
pub enum ReaderEvent {
    Data { data: Data, flags: SubmessageFlags, state: MessageReceiverState },
    DataFrag { datafrag: DataFrag, flags: SubmessageFlags, state: MessageReceiverState },
    Gap { gap: Gap, state: MessageReceiverState },
    Heartbeat { heartbeat: Heartbeat, final_flag: bool, state: MessageReceiverState },
    HeartbeatFrag { heartbeatfrag: HeartbeatFrag, state: MessageReceiverState },
    /// Tell whoever reads from this reader that there is something new.
    CacheChange,
    /// Send acknowledgements to the writers that have shown no action yet.
    PreemptiveAckNacks,
}

pub enum ReaderEventView {
    Data { data: DataView, flags: SubmessageFlags, state: MessageReceiverStateView },
    DataFrag { datafrag: DataFragView, flags: SubmessageFlags, state: MessageReceiverStateView },
    Gap { gap: Gap, state: MessageReceiverStateView },
    Heartbeat { heartbeat: Heartbeat, final_flag: bool, state: MessageReceiverStateView },
    HeartbeatFrag { heartbeatfrag: HeartbeatFrag, state: MessageReceiverStateView },
    CacheChange,
    PreemptiveAckNacks,
}

impl View for ReaderEvent {
    type V = ReaderEventView;

    open spec fn view(&self) -> ReaderEventView {
        match *self {
            ReaderEvent::Data { data, flags, state } => {
                ReaderEventView::Data { data: data@, flags, state: state@ }
            },
            ReaderEvent::DataFrag { datafrag, flags, state } => {
                ReaderEventView::DataFrag { datafrag: datafrag@, flags, state: state@ }
            },
            ReaderEvent::Gap { gap, state } => ReaderEventView::Gap { gap, state: state@ },
            ReaderEvent::Heartbeat { heartbeat, final_flag, state } => {
                ReaderEventView::Heartbeat { heartbeat, final_flag, state: state@ }
            },
            ReaderEvent::HeartbeatFrag { heartbeatfrag, state } => {
                ReaderEventView::HeartbeatFrag { heartbeatfrag, state: state@ }
            },
            ReaderEvent::CacheChange => ReaderEventView::CacheChange,
            ReaderEvent::PreemptiveAckNacks => ReaderEventView::PreemptiveAckNacks,
        }
    }
}

/// The sample of a change, if the change carries one.
#[derive(Debug)]
pub struct DDSData {
    pub serialized_payload: Option<SerializedPayload>,
}

impl View for DDSData {
    type V = Option<SerializedPayloadView>;

    open spec fn view(&self) -> Option<SerializedPayloadView> {
        match self.serialized_payload {
            Some(p) => Some(p@),
            None => None,
        }
    }
}

impl DDSData {
    /// The serialized value, without the octets that say how it is encoded.
    pub fn data(&self) -> (r: Option<&Vec<u8>>)
        ensures
            match self@ {
                Some(p) => r is Some && r->0@ == p.value,
                None => r is None,
            },
    {
        match &self.serialized_payload {
            Some(p) => Some(&p.value),
            None => None,
        }
    }
}

fn clone_payload(o: &Option<SerializedPayload>) -> (r: Option<SerializedPayload>)
    ensures
        match *o {
            Some(p) => r is Some && r->0@ == p@,
            None => r is None,
        },
{
    match o {
        Some(p) => Some(p.clone()),
        None => None,
    }
}

/// A change that a reader has been handed.
#[derive(Debug)]
pub struct CacheChange {
    pub writer_guid: GUID,
    pub sequence_number: SequenceNumber,
    pub source_timestamp: Option<Timestamp>,
    pub data_value: DDSData,
}

pub struct CacheChangeView {
    pub writer_guid: GUID,
    pub sequence_number: SequenceNumber,
    pub source_timestamp: Option<Timestamp>,
    pub data_value: Option<SerializedPayloadView>,
}

impl View for CacheChange {
    type V = CacheChangeView;

    open spec fn view(&self) -> CacheChangeView {
        CacheChangeView {
            writer_guid: self.writer_guid,
            sequence_number: self.sequence_number,
            source_timestamp: self.source_timestamp,
            data_value: self.data_value@,
        }
    }
}

impl Clone for CacheChange {
    fn clone(&self) -> (r: CacheChange)
        ensures
            r@ == self@,
    {
        CacheChange {
            writer_guid: self.writer_guid,
            sequence_number: self.sequence_number,
            source_timestamp: self.source_timestamp,
            data_value: DDSData {
                serialized_payload: clone_payload(&self.data_value.serialized_payload),
            },
        }
    }
}

impl ReaderEventView {
    /// The change that the event brings, if it brings one.
    pub open spec fn change(self) -> Option<CacheChangeView> {
        match self {
            ReaderEventView::Data { data, flags, state } => Some(
                CacheChangeView {
                    writer_guid: GUID {
                        prefix: state.source_guid_prefix,
                        entity_id: data.writer_id,
                    },
                    sequence_number: data.writer_sn,
                    source_timestamp: state.source_timestamp,
                    data_value: data.serialized_payload,
                },
            ),
            _ => None,
        }
    }
}

/// The first change with this number in `history`.
pub open spec fn first_change(
    history: Seq<CacheChangeView>,
    sequence_number: SequenceNumber,
) -> Option<CacheChangeView>
    decreases history.len(),
{
    if history.len() == 0 {
        None
    } else {
        match first_change(history.drop_last(), sequence_number) {
            Some(c) => Some(c),
            None => if history.last().sequence_number == sequence_number {
                Some(history.last())
            } else {
                None
            },
        }
    }
}

/// Later changes do not alter which one is the first.
proof fn lemma_first_change_is_first(
    history: Seq<CacheChangeView>,
    sequence_number: SequenceNumber,
    n: int,
)
    requires
        0 <= n <= history.len(),
        first_change(history.take(n), sequence_number) is Some,
    ensures
        first_change(history, sequence_number) == first_change(history.take(n), sequence_number),
    decreases history.len(),
{
    if n == history.len() {
        assert(history.take(n) =~= history);
    } else {
        assert(history.drop_last().take(n) =~= history.take(n));
        lemma_first_change_is_first(history.drop_last(), sequence_number, n);
    }
}

/// Whether `ends` holds the lowest and the highest number of the changes in
/// `history`, or nothing if there are none.
pub open spec fn spans(history: Seq<CacheChangeView>, ends: Seq<SequenceNumber>) -> bool {
    if history.len() == 0 {
        ends.len() == 0
    } else {
        &&& ends.len() == 2
        &&& exists|i: int|
            0 <= i < history.len() && (#[trigger] history[i]).sequence_number == ends[0]
        &&& exists|i: int|
            0 <= i < history.len() && (#[trigger] history[i]).sequence_number == ends[1]
        &&& forall|i: int|
            0 <= i < history.len() ==> ends[0].value <= (
            #[trigger] history[i]).sequence_number.value <= ends[1].value
    }
}

/// A local reader.
#[derive(Debug)]
pub struct Reader {
    pub guid: GUID,
    pub matched_writers: Vec<GUID>,
    /// The changes that the reader has been handed, oldest first.
    pub history: Vec<CacheChange>,
}

pub struct ReaderView {
    pub guid: GUID,
    pub matched_writers: Seq<GUID>,
    pub history: Seq<CacheChangeView>,
}

impl View for Reader {
    type V = ReaderView;

    open spec fn view(&self) -> ReaderView {
        ReaderView {
            guid: self.guid,
            matched_writers: self.matched_writers@,
            history: self.history@.map_values(|c: CacheChange| c@),
        }
    }
}

impl ReaderView {
    /// Whether a writer with this entity identifier is matched.
    pub open spec fn contains_writer(self, entity_id: EntityId) -> bool {
        exists|i: int|
            0 <= i < self.matched_writers.len() && (#[trigger] self.matched_writers[i]).entity_id
                == entity_id
    }

    /// The reader once it has been handed `event`: a change that the event
    /// brings is added to the history.
    pub open spec fn handed(self, event: ReaderEventView) -> ReaderView {
        match event.change() {
            Some(change) => ReaderView { history: self.history.push(change), ..self },
            None => self,
        }
    }
}

impl Reader {
    /// A reader with no matched writers that has been handed nothing.
    pub fn new(guid: GUID) -> (r: Reader)
        ensures
            r@ == (ReaderView { guid, matched_writers: seq![], history: seq![] }),
    {
        let r = Reader { guid, matched_writers: Vec::new(), history: Vec::new() };
        assert(r@.history =~= seq![]);
        r
    }

    pub fn guid(&self) -> (r: GUID)
        ensures
            r == self@.guid,
    {
        self.guid
    }

    pub fn entity_id(&self) -> (r: EntityId)
        ensures
            r == self@.guid.entity_id,
    {
        self.guid.entity_id
    }

    pub fn contains_writer(&self, entity_id: EntityId) -> (r: bool)
        ensures
            r == self@.contains_writer(entity_id),
    {
        let mut i: usize = 0;
        while i < self.matched_writers.len()
            invariant
                i <= self.matched_writers.len(),
                forall|j: int| 0 <= j < i ==> self.matched_writers@[j].entity_id != entity_id,
            decreases self.matched_writers.len() - i,
        {
            if self.matched_writers[i].entity_id == entity_id {
                assert(self@.matched_writers[i as int].entity_id == entity_id);
                return true;
            }
            i = i + 1;
        }
        false
    }

    /// Adds the change to the history. What else there is to do is returned,
    /// here as in the functions below: it is up to whoever acts for the reader.
    pub fn handle_data_msg(
        &mut self,
        data: Data,
        data_flags: SubmessageFlags,
        mr_state: &MessageReceiverState,
    ) -> (r: ReaderEvent)
        ensures
            r@ == (ReaderEventView::Data { data: data@, flags: data_flags, state: mr_state@ }),
            final(self)@ == old(self)@.handed(r@),
    {
        let change = CacheChange {
            writer_guid: GUID::new_with_prefix_and_id(mr_state.source_guid_prefix, data.writer_id),
            sequence_number: data.writer_sn,
            source_timestamp: mr_state.source_timestamp,
            data_value: DDSData { serialized_payload: clone_payload(&data.serialized_payload) },
        };
        let ghost view = change@;
        self.history.push(change);
        assert(self@.history =~= old(self)@.history.push(view));
        ReaderEvent::Data { data, flags: data_flags, state: mr_state.clone() }
    }

    pub fn handle_heartbeat_msg(
        &mut self,
        heartbeat: &Heartbeat,
        final_flag: bool,
        mr_state: MessageReceiverState,
    ) -> (r: ReaderEvent)
        ensures
            r@ == (ReaderEventView::Heartbeat {
                heartbeat: *heartbeat,
                final_flag,
                state: mr_state@,
            }),
            final(self)@ == old(self)@.handed(r@),
    {
        ReaderEvent::Heartbeat { heartbeat: *heartbeat, final_flag, state: mr_state }
    }

    pub fn handle_gap_msg(&mut self, gap: &Gap, mr_state: &MessageReceiverState) -> (r: ReaderEvent)
        ensures
            r@ == (ReaderEventView::Gap { gap: *gap, state: mr_state@ }),
            final(self)@ == old(self)@.handed(r@),
    {
        ReaderEvent::Gap { gap: *gap, state: mr_state.clone() }
    }

    pub fn handle_datafrag_msg(
        &mut self,
        datafrag: &DataFrag,
        datafrag_flags: SubmessageFlags,
        mr_state: &MessageReceiverState,
    ) -> (r: ReaderEvent)
        ensures
            r@ == (ReaderEventView::DataFrag {
                datafrag: datafrag@,
                flags: datafrag_flags,
                state: mr_state@,
            }),
            final(self)@ == old(self)@.handed(r@),
    {
        ReaderEvent::DataFrag {
            datafrag: datafrag.clone(),
            flags: datafrag_flags,
            state: mr_state.clone(),
        }
    }

    pub fn handle_heartbeatfrag_msg(
        &mut self,
        heartbeatfrag: &HeartbeatFrag,
        mr_state: &MessageReceiverState,
    ) -> (r: ReaderEvent)
        ensures
            r@ == (ReaderEventView::HeartbeatFrag {
                heartbeatfrag: *heartbeatfrag,
                state: mr_state@,
            }),
            final(self)@ == old(self)@.handed(r@),
    {
        ReaderEvent::HeartbeatFrag { heartbeatfrag: *heartbeatfrag, state: mr_state.clone() }
    }

    pub fn notify_cache_change(&self) -> (r: ReaderEvent)
        ensures
            r@ == ReaderEventView::CacheChange,
    {
        ReaderEvent::CacheChange
    }

    pub fn send_preemptive_acknacks(&mut self) -> (r: ReaderEvent)
        ensures
            r@ == ReaderEventView::PreemptiveAckNacks,
            final(self)@ == old(self)@.handed(r@),
    {
        ReaderEvent::PreemptiveAckNacks
    }

    /// The first change with this number in the history.
    pub fn history_cache_change(&self, sequence_number: SequenceNumber) -> (r: Option<CacheChange>)
        ensures
            match r {
                Some(c) => first_change(self@.history, sequence_number) == Some(c@),
                None => first_change(self@.history, sequence_number) is None,
            },
    {
        let ghost history = self@.history;
        let mut i: usize = 0;
        assert(history.take(0) =~= seq![]);
        while i < self.history.len()
            invariant
                i <= self.history.len(),
                history == self@.history,
                first_change(history.take(i as int), sequence_number) is None,
            decreases self.history.len() - i,
        {
            assert(history[i as int] == self.history@[i as int]@);
            assert(history.take(i + 1).drop_last() =~= history.take(i as int));
            if self.history[i].sequence_number == sequence_number {
                proof {
                    lemma_first_change_is_first(history, sequence_number, i + 1);
                }
                return Some(self.history[i].clone());
            }
            i = i + 1;
        }
        assert(history.take(i as int) =~= history);
        None
    }

    /// The sample of the first change with this number in the history.
    pub fn history_cache_change_data(&self, sequence_number: SequenceNumber) -> (r: Option<DDSData>)
        ensures
            match first_change(self@.history, sequence_number) {
                Some(c) => r is Some && r->0@ == c.data_value,
                None => r is None,
            },
    {
        match self.history_cache_change(sequence_number) {
            Some(c) => Some(c.data_value),
            None => None,
        }
    }

    /// The lowest and the highest number in the history; nothing if it is
    /// empty.
    pub fn history_cache_sequence_start_and_end_numbers(&self) -> (r: Vec<SequenceNumber>)
        ensures
            spans(self@.history, r@),
    {
        if self.history.len() == 0 {
            return Vec::new();
        }
        let ghost history = self@.history;
        let mut low: i64 = self.history[0].sequence_number.value;
        let mut high: i64 = low;
        let ghost mut lowest: int = 0;
        let ghost mut highest: int = 0;
        let mut i: usize = 1;
        while i < self.history.len()
            invariant
                1 <= i <= self.history.len(),
                history == self@.history,
                0 <= lowest < history.len(),
                0 <= highest < history.len(),
                history[lowest].sequence_number.value == low,
                history[highest].sequence_number.value == high,
                forall|j: int|
                    0 <= j < i ==> low <= (#[trigger] history[j]).sequence_number.value <= high,
            decreases self.history.len() - i,
        {
            assert(history[i as int] == self.history@[i as int]@);
            let n: i64 = self.history[i].sequence_number.value;
            if n < low {
                low = n;
                proof {
                    lowest = i as int;
                }
            }
            if n > high {
                high = n;
                proof {
                    highest = i as int;
                }
            }
            i = i + 1;
        }
        vec![SequenceNumber::new(low), SequenceNumber::new(high)]
    }
}

} // verus!
