//! What holds of a receiver over whole messages and over several calls.
use vstd::prelude::*;

use crate::effect::EffectView;
use crate::elements::Locator;
use crate::elements::ReadError;
use crate::guid::EntityId;
use crate::guid::GUID;
use crate::guid::GuidPrefix;
use crate::header;
use crate::header::Header;
use crate::message;
use crate::message_receiver::MessageReceiverStateView;
use crate::model;
use crate::model::MessageView;
use crate::model::ReceiverView;
use crate::order;
use crate::packet;
use crate::packet::PacketOutcome;
use crate::reader;
use crate::reader::CacheChangeView;
use crate::reader::ReaderEventView;
use crate::reader::ReaderView;
use crate::submessages::AckNack;
use crate::submessages::AckSubmessage;
use crate::submessages::DataView;
use crate::submessages::EntitySubmessageView;
use crate::submessages::HEARTBEAT_FLAG_FINAL;
use crate::submessages::Heartbeat;
use crate::submessages::HeartbeatFrag;
use crate::submessages::INFOREPLY_FLAG_MULTICAST;
use crate::submessages::InfoDestination;
use crate::submessages::InfoReplyView;
use crate::submessages::InfoSource;
use crate::submessages::InfoTimestamp;
use crate::submessages::InterpreterSubmessageView;
use crate::submessages::NackFrag;
use crate::submessages::SubmessageBodyView;
use crate::submessages::SubmessageFlags;

verus! {

/// Submessages can be handled in two parts: those of the second part find the
/// receiver as those of the first have left it.
pub proof fn law_submessages_in_parts(
    receiver: ReceiverView,
    first: Seq<SubmessageBodyView>,
    second: Seq<SubmessageBodyView>,
)
    ensures
        receiver.after_submessages(first + second) == receiver.after_submessages(
            first,
        ).after_submessages(second),
    decreases second.len(),
{
    if second.len() == 0 {
        assert(first + second =~= first);
    } else {
        law_submessages_in_parts(receiver, first, second.drop_last());
        assert((first + second).drop_last() =~= first + second.drop_last());
    }
}

/// Nothing of an earlier message carries over: what a message does depends on
/// whose receiver it is, on the readers and on what has been handed over, and
/// on nothing else.
pub proof fn law_messages_are_independent(
    a: ReceiverView,
    b: ReceiverView,
    message: MessageView,
)
    requires
        a.own_guid_prefix == b.own_guid_prefix,
        a.readers == b.readers,
        a.acknacks == b.acknacks,
        a.liveness == b.liveness,
        a.effects == b.effects,
    ensures
        a.after_message(message) == b.after_message(message),
{
    assert(a.at_start(message.header.guid_prefix) == b.at_start(message.header.guid_prefix));
}

/// Clearing a receiver before a message makes no difference, and clearing it
/// twice is clearing it once.
pub proof fn law_clearing(receiver: ReceiverView, message: MessageView)
    ensures
        receiver.cleared().after_message(message) == receiver.after_message(message),
        receiver.cleared().cleared() == receiver.cleared(),
{
    law_messages_are_independent(receiver.cleared(), receiver, message);
}

/// After a message, the count is the number of its submessages, whether or not
/// they were for this participant.
pub proof fn law_all_submessages_are_counted(receiver: ReceiverView, message: MessageView)
    ensures
        receiver.after_message(message).submessage_count == message.submessages.len(),
{
    lemma_count(receiver.at_start(message.header.guid_prefix), message.submessages);
}

proof fn lemma_count(receiver: ReceiverView, submessages: Seq<SubmessageBodyView>)
    ensures
        receiver.after_submessages(submessages).submessage_count == receiver.submessage_count
            + submessages.len(),
    decreases submessages.len(),
{
    if submessages.len() > 0 {
        lemma_count(receiver, submessages.drop_last());
    }
}

/// An interpreter submessage changes nothing but how the submessages after it
/// are taken.
pub proof fn law_interpreter_submessages_only_interpret(
    receiver: ReceiverView,
    submessage: InterpreterSubmessageView,
)
    ensures
        ({
            let after = receiver.after_interpreter(submessage);
            &&& after.own_guid_prefix == receiver.own_guid_prefix
            &&& after.submessage_count == receiver.submessage_count
            &&& after.readers == receiver.readers
            &&& after.acknacks == receiver.acknacks
            &&& after.liveness == receiver.liveness
            &&& after.effects == receiver.effects
        }),
{
}

/// An entity submessage does not change how the submessages after it are
/// taken.
pub proof fn law_entity_submessages_do_not_interpret(
    receiver: ReceiverView,
    submessage: EntitySubmessageView,
)
    ensures
        ({
            let after = receiver.after_entity(submessage);
            &&& after.own_guid_prefix == receiver.own_guid_prefix
            &&& after.submessage_count == receiver.submessage_count
            &&& after.context == receiver.context
        }),
{
}

/// A receiver belongs to the same participant after any message.
pub proof fn law_owner_stays(receiver: ReceiverView, message: MessageView)
    ensures
        receiver.after_message(message).own_guid_prefix == receiver.own_guid_prefix,
{
    lemma_owner_stays(receiver.at_start(message.header.guid_prefix), message.submessages);
}

proof fn lemma_owner_stays(receiver: ReceiverView, submessages: Seq<SubmessageBodyView>)
    ensures
        receiver.after_submessages(submessages).own_guid_prefix == receiver.own_guid_prefix,
    decreases submessages.len(),
{
    if submessages.len() > 0 {
        lemma_owner_stays(receiver, submessages.drop_last());
    }
}

/// Whether `after` is `before` with some things handed to its readers and some
/// to its channels: no reader comes, goes or changes otherwise,
/// and nothing that was handed over is taken back.
pub open spec fn only_hands_on(before: ReceiverView, after: ReceiverView) -> bool {
    &&& after.readers.dom() == before.readers.dom()
    &&& forall|key: u32|
        #![trigger after.readers[key]]
        before.readers.contains_key(key) ==> {
            &&& after.readers[key].guid == before.readers[key].guid
            &&& after.readers[key].matched_writers == before.readers[key].matched_writers
            &&& before.readers[key].history.is_prefix_of(after.readers[key].history)
        }
    &&& before.acknacks.is_prefix_of(after.acknacks)
    &&& before.liveness.is_prefix_of(after.liveness)
    &&& before.effects.is_prefix_of(after.effects)
}

/// Handling a message only ever hands things on.
pub proof fn law_messages_only_hand_on(receiver: ReceiverView, message: MessageView)
    ensures
        only_hands_on(receiver, receiver.after_message(message)),
{
    lemma_only_hands_on(receiver.at_start(message.header.guid_prefix), message.submessages);
}

proof fn lemma_only_hands_on(receiver: ReceiverView, submessages: Seq<SubmessageBodyView>)
    ensures
        only_hands_on(receiver, receiver.after_submessages(submessages)),
    decreases submessages.len(),
{
    if submessages.len() > 0 {
        lemma_only_hands_on(receiver, submessages.drop_last());
        let before = receiver.after_submessages(submessages.drop_last());
        let after = receiver.after_submessages(submessages);
        assert(after.readers.dom() =~= before.readers.dom());
        assert forall|key: u32|
            #![trigger after.readers[key]]
            receiver.readers.contains_key(key) implies {
            &&& after.readers[key].guid == receiver.readers[key].guid
            &&& after.readers[key].matched_writers == receiver.readers[key].matched_writers
            &&& receiver.readers[key].history.is_prefix_of(after.readers[key].history)
        } by {
            assert(before.readers.contains_key(key));
            assert(receiver.readers[key].history.is_prefix_of(before.readers[key].history));
        }
    }
}

/// Readers stay registered under their own entity identifiers, whatever the
/// receiver is asked to do.
pub proof fn law_readers_stay_under_their_identifiers(
    receiver: ReceiverView,
    reader: ReaderView,
    id: EntityId,
    octets: Seq<u8>,
    message: MessageView,
)
    requires
        receiver.wf(),
    ensures
        receiver.with_reader(reader).wf(),
        receiver.without_reader(id).wf(),
        receiver.cleared().wf(),
        receiver.after_preemptive_acknacks().wf(),
        receiver.after_message(message).wf(),
        receiver.after_packet(octets).wf(),
{
    law_messages_only_hand_on(receiver, message);
    if let Ok(read) = message::message_of(octets) {
        law_messages_only_hand_on(receiver, read);
    }
}

/// A packet that is no message leaves the receiver as it was, and one that is
/// a message is handled as that message.
pub proof fn law_only_messages_count(receiver: ReceiverView, octets: Seq<u8>)
    ensures
        packet::outcome_of(octets) == PacketOutcome::Handled <==> message::message_of(octets) is Ok,
        packet::outcome_of(octets) != PacketOutcome::Handled ==> receiver.after_packet(octets)
            == receiver,
        packet::outcome_of(octets) == PacketOutcome::Handled ==> receiver.after_packet(octets)
            == receiver.after_message(message::message_of(octets)->Ok_0),
{
}

/// A header alone is a message without submessages from the participant that
/// it names.
pub proof fn law_bare_header_is_a_message(header: Header)
    ensures
        message::message_of(header.octets()) == Ok::<MessageView, ReadError>(
            MessageView { header, submessages: seq![] },
        ),
        packet::outcome_of(header.octets()) == PacketOutcome::Handled,
{
    header::lemma_header_round_trip(header, seq![]);
    assert(header.octets() + seq![] =~= header.octets());
    assert(header.octets().skip(20) =~= seq![]);
}

/// Whether the submessage says whom those after it are for.
pub open spec fn is_info_destination(submessage: SubmessageBodyView) -> bool {
    submessage matches SubmessageBodyView::Interpreter(
        InterpreterSubmessageView::InfoDestination(_, _),
    )
}

/// Whether the submessage says who sent those after it.
pub open spec fn is_info_source(submessage: SubmessageBodyView) -> bool {
    submessage matches SubmessageBodyView::Interpreter(InterpreterSubmessageView::InfoSource(_, _))
}

/// From where a message says that it is for another participant up to where it
/// says otherwise, nothing is handed on: all that comes of it is that entity
/// submessages are dropped.
pub proof fn law_nothing_is_handed_on_for_others(
    receiver: ReceiverView,
    info: InfoDestination,
    flags: SubmessageFlags,
    submessages: Seq<SubmessageBodyView>,
)
    requires
        info.guid_prefix != receiver.own_guid_prefix,
        info.guid_prefix != GuidPrefix::unknown(),
        forall|i: int|
            0 <= i < submessages.len() ==> !is_info_destination(#[trigger] submessages[i]),
    ensures
        ({
            let after = receiver.after_interpreter(
                InterpreterSubmessageView::InfoDestination(info, flags),
            ).after_submessages(submessages);
            &&& after.readers == receiver.readers
            &&& after.acknacks == receiver.acknacks
            &&& after.liveness == receiver.liveness
            &&& receiver.effects.is_prefix_of(after.effects)
            &&& forall|i: int|
                receiver.effects.len() <= i < after.effects.len() ==> (#[trigger] after.effects[i])
                    == (EffectView::Dropped { dest_guid_prefix: info.guid_prefix })
        }),
{
    lemma_nothing_is_handed_on(
        receiver.after_interpreter(InterpreterSubmessageView::InfoDestination(info, flags)),
        submessages,
    );
}

proof fn lemma_nothing_is_handed_on(receiver: ReceiverView, submessages: Seq<SubmessageBodyView>)
    requires
        !receiver.context.is_for(receiver.own_guid_prefix),
        forall|i: int|
            0 <= i < submessages.len() ==> !is_info_destination(#[trigger] submessages[i]),
    ensures
        ({
            let after = receiver.after_submessages(submessages);
            &&& after.own_guid_prefix == receiver.own_guid_prefix
            &&& after.context.dest_guid_prefix == receiver.context.dest_guid_prefix
            &&& after.readers == receiver.readers
            &&& after.acknacks == receiver.acknacks
            &&& after.liveness == receiver.liveness
            &&& receiver.effects.is_prefix_of(after.effects)
            &&& forall|i: int|
                receiver.effects.len() <= i < after.effects.len() ==> (#[trigger] after.effects[i])
                    == (EffectView::Dropped { dest_guid_prefix: receiver.context.dest_guid_prefix })
        }),
    decreases submessages.len(),
{
    if submessages.len() > 0 {
        assert forall|i: int| 0 <= i < submessages.drop_last().len() implies !is_info_destination(
            #[trigger] submessages.drop_last()[i],
        ) by {
            assert(submessages.drop_last()[i] == submessages[i]);
        }
        lemma_nothing_is_handed_on(receiver, submessages.drop_last());
        assert(!is_info_destination(submessages[submessages.len() - 1]));
    }
}

/// A message is for the participant that receives it as long as it does not
/// name another: at its start, and from where it names no participant.
pub proof fn law_messages_are_for_the_receiver_by_default(
    receiver: ReceiverView,
    source: GuidPrefix,
    info: InfoDestination,
    flags: SubmessageFlags,
)
    requires
        info.guid_prefix == GuidPrefix::unknown() || info.guid_prefix == receiver.own_guid_prefix,
    ensures
        receiver.at_start(source).context.is_for(receiver.own_guid_prefix),
        receiver.after_interpreter(
            InterpreterSubmessageView::InfoDestination(info, flags),
        ).context.is_for(receiver.own_guid_prefix),
{
}

/// Whether the submessage sets or clears the time of those after it.
pub open spec fn is_about_time(submessage: SubmessageBodyView) -> bool {
    ||| is_info_source(submessage)
    ||| submessage matches SubmessageBodyView::Interpreter(
        InterpreterSubmessageView::InfoTimestamp(_, _),
    )
}

/// A timestamp, or the lack of one, goes with all submessages after it, up to
/// the next that says something else.
pub proof fn law_timestamps_last(
    receiver: ReceiverView,
    info: InfoTimestamp,
    flags: SubmessageFlags,
    submessages: Seq<SubmessageBodyView>,
)
    requires
        forall|i: int| 0 <= i < submessages.len() ==> !is_about_time(#[trigger] submessages[i]),
    ensures
        receiver.after_interpreter(
            InterpreterSubmessageView::InfoTimestamp(info, flags),
        ).after_submessages(submessages).context.source_timestamp == info.timestamp,
{
    lemma_timestamp_stays(
        receiver.after_interpreter(InterpreterSubmessageView::InfoTimestamp(info, flags)),
        submessages,
    );
}

/// There is no timestamp before the first in a message.
pub proof fn law_no_timestamp_at_first(
    receiver: ReceiverView,
    source: GuidPrefix,
    submessages: Seq<SubmessageBodyView>,
)
    requires
        forall|i: int| 0 <= i < submessages.len() ==> !is_about_time(#[trigger] submessages[i]),
    ensures
        receiver.at_start(source).after_submessages(submessages).context.source_timestamp is None,
{
    lemma_timestamp_stays(receiver.at_start(source), submessages);
}

proof fn lemma_timestamp_stays(receiver: ReceiverView, submessages: Seq<SubmessageBodyView>)
    requires
        forall|i: int| 0 <= i < submessages.len() ==> !is_about_time(#[trigger] submessages[i]),
    ensures
        receiver.after_submessages(submessages).context.source_timestamp
            == receiver.context.source_timestamp,
    decreases submessages.len(),
{
    if submessages.len() > 0 {
        assert forall|i: int| 0 <= i < submessages.drop_last().len() implies !is_about_time(
            #[trigger] submessages.drop_last()[i],
        ) by {
            assert(submessages.drop_last()[i] == submessages[i]);
        }
        lemma_timestamp_stays(receiver, submessages.drop_last());
        assert(!is_about_time(submessages[submessages.len() - 1]));
    }
}

/// Whether the submessage sets or clears where replies to those after it go.
pub open spec fn is_about_replies(submessage: SubmessageBodyView) -> bool {
    ||| is_info_source(submessage)
    ||| submessage matches SubmessageBodyView::Interpreter(
        InterpreterSubmessageView::InfoReply(_, _),
    )
}

/// Where replies go holds for all submessages after the one that says so, up
/// to the next that says something else. Multicast locators that its flags do
/// not announce are not used.
pub proof fn law_reply_locators_last(
    receiver: ReceiverView,
    info: InfoReplyView,
    flags: SubmessageFlags,
    submessages: Seq<SubmessageBodyView>,
)
    requires
        InterpreterSubmessageView::InfoReply(info, flags).wf(),
        forall|i: int| 0 <= i < submessages.len() ==> !is_about_replies(#[trigger] submessages[i]),
    ensures
        ({
            let after = receiver.after_interpreter(
                InterpreterSubmessageView::InfoReply(info, flags),
            ).after_submessages(submessages).context;
            &&& after.unicast_reply_locator_list == info.unicast_locator_list
            &&& if flags.contains(INFOREPLY_FLAG_MULTICAST) {
                Some(after.multicast_reply_locator_list) == info.multicast_locator_list
            } else {
                after.multicast_reply_locator_list == Seq::<Locator>::empty()
            }
        }),
{
    lemma_reply_locators_stay(
        receiver.after_interpreter(InterpreterSubmessageView::InfoReply(info, flags)),
        submessages,
    );
}

/// There are no reply locators before the first in a message.
pub proof fn law_no_reply_locators_at_first(
    receiver: ReceiverView,
    source: GuidPrefix,
    submessages: Seq<SubmessageBodyView>,
)
    requires
        forall|i: int| 0 <= i < submessages.len() ==> !is_about_replies(#[trigger] submessages[i]),
    ensures
        ({
            let after = receiver.at_start(source).after_submessages(submessages).context;
            &&& after.unicast_reply_locator_list == Seq::<Locator>::empty()
            &&& after.multicast_reply_locator_list == Seq::<Locator>::empty()
        }),
{
    lemma_reply_locators_stay(receiver.at_start(source), submessages);
}

proof fn lemma_reply_locators_stay(receiver: ReceiverView, submessages: Seq<SubmessageBodyView>)
    requires
        forall|i: int| 0 <= i < submessages.len() ==> !is_about_replies(#[trigger] submessages[i]),
    ensures
        ({
            let after = receiver.after_submessages(submessages).context;
            let before = receiver.context;
            &&& after.unicast_reply_locator_list == before.unicast_reply_locator_list
            &&& after.multicast_reply_locator_list == before.multicast_reply_locator_list
        }),
    decreases submessages.len(),
{
    if submessages.len() > 0 {
        assert forall|i: int| 0 <= i < submessages.drop_last().len() implies !is_about_replies(
            #[trigger] submessages.drop_last()[i],
        ) by {
            assert(submessages.drop_last()[i] == submessages[i]);
        }
        lemma_reply_locators_stay(receiver, submessages.drop_last());
        assert(!is_about_replies(submessages[submessages.len() - 1]));
    }
}

/// Who sent the submessages holds from where a message says so up to where it
/// names another.
pub proof fn law_sources_last(
    receiver: ReceiverView,
    info: InfoSource,
    flags: SubmessageFlags,
    submessages: Seq<SubmessageBodyView>,
)
    requires
        forall|i: int| 0 <= i < submessages.len() ==> !is_info_source(#[trigger] submessages[i]),
    ensures
        ({
            let after = receiver.after_interpreter(
                InterpreterSubmessageView::InfoSource(info, flags),
            ).after_submessages(submessages).context;
            &&& after.source_guid_prefix == info.guid_prefix
            &&& after.source_version == info.protocol_version
            &&& after.source_vendor_id == info.vendor_id
        }),
    decreases submessages.len(),
{
    if submessages.len() > 0 {
        assert forall|i: int| 0 <= i < submessages.drop_last().len() implies !is_info_source(
            #[trigger] submessages.drop_last()[i],
        ) by {
            assert(submessages.drop_last()[i] == submessages[i]);
        }
        law_sources_last(receiver, info, flags, submessages.drop_last());
        assert(!is_info_source(submessages[submessages.len() - 1]));
    }
}

/// The same interpreter submessage twice in a row does what it does once.
pub proof fn law_repeated_interpretation(
    receiver: ReceiverView,
    submessage: InterpreterSubmessageView,
)
    ensures
        receiver.after_interpreter(submessage).after_interpreter(submessage)
            == receiver.after_interpreter(submessage),
{
}

/// Whom a message is for has nothing to do with what else its interpreter
/// submessages say: INFO_DST and any of the others can change places.
pub proof fn law_destination_is_independent(
    receiver: ReceiverView,
    info: InfoDestination,
    flags: SubmessageFlags,
    other: InterpreterSubmessageView,
)
    requires
        other !is InfoDestination,
    ensures
        ({
            let destination = InterpreterSubmessageView::InfoDestination(info, flags);
            receiver.after_interpreter(destination).after_interpreter(other)
                == receiver.after_interpreter(other).after_interpreter(destination)
        }),
{
}

/// INFO_SRC voids all that was said before of the sender, of the time and of
/// where replies go: it does the same without the submessage before it,
/// unless that is INFO_DST.
pub proof fn law_new_source_voids_what_went_before(
    receiver: ReceiverView,
    info: InfoSource,
    flags: SubmessageFlags,
    earlier: InterpreterSubmessageView,
)
    requires
        earlier !is InfoDestination,
    ensures
        ({
            let source = InterpreterSubmessageView::InfoSource(info, flags);
            receiver.after_interpreter(earlier).after_interpreter(source)
                == receiver.after_interpreter(source)
        }),
{
}

/// Where a message names another sender, the reply locators and the timestamp
/// that went before are void; whom the message is for stays.
pub proof fn law_new_source_starts_afresh(
    receiver: ReceiverView,
    info: InfoSource,
    flags: SubmessageFlags,
)
    ensures
        receiver.after_interpreter(
            InterpreterSubmessageView::InfoSource(info, flags),
        ).context.state() == (MessageReceiverStateView {
            source_guid_prefix: info.guid_prefix,
            unicast_reply_locator_list: seq![],
            multicast_reply_locator_list: seq![],
            source_timestamp: None,
        }),
        receiver.after_interpreter(
            InterpreterSubmessageView::InfoSource(info, flags),
        ).context.dest_guid_prefix == receiver.context.dest_guid_prefix,
{
}

/// In a message that never names another sender, everything handed on to the
/// local writers and to discovery goes under the prefix in its header.
pub proof fn law_handed_on_under_the_sender(receiver: ReceiverView, message: MessageView)
    requires
        forall|i: int|
            0 <= i < message.submessages.len() ==> !is_info_source(#[trigger] message.submessages[i]),
    ensures
        ({
            let after = receiver.after_message(message);
            &&& forall|i: int|
                receiver.acknacks.len() <= i < after.acknacks.len() ==> (
                #[trigger] after.acknacks[i]).0 == message.header.guid_prefix
            &&& forall|i: int|
                receiver.liveness.len() <= i < after.liveness.len() ==> (
                #[trigger] after.liveness[i]) == message.header.guid_prefix
        }),
{
    lemma_handed_on_under_the_sender(
        receiver.at_start(message.header.guid_prefix),
        message.submessages,
    );
}

proof fn lemma_handed_on_under_the_sender(
    receiver: ReceiverView,
    submessages: Seq<SubmessageBodyView>,
)
    requires
        forall|i: int| 0 <= i < submessages.len() ==> !is_info_source(#[trigger] submessages[i]),
    ensures
        ({
            let source = receiver.context.source_guid_prefix;
            let after = receiver.after_submessages(submessages);
            &&& after.context.source_guid_prefix == source
            &&& receiver.acknacks.len() <= after.acknacks.len()
            &&& receiver.liveness.len() <= after.liveness.len()
            &&& forall|i: int|
                receiver.acknacks.len() <= i < after.acknacks.len() ==> (
                #[trigger] after.acknacks[i]).0 == source
            &&& forall|i: int|
                receiver.liveness.len() <= i < after.liveness.len() ==> (
                #[trigger] after.liveness[i]) == source
        }),
    decreases submessages.len(),
{
    if submessages.len() > 0 {
        assert forall|i: int| 0 <= i < submessages.drop_last().len() implies !is_info_source(
            #[trigger] submessages.drop_last()[i],
        ) by {
            assert(submessages.drop_last()[i] == submessages[i]);
        }
        lemma_handed_on_under_the_sender(receiver, submessages.drop_last());
        assert(!is_info_source(submessages[submessages.len() - 1]));
        let before = receiver.after_submessages(submessages.drop_last());
        let after = receiver.after_submessages(submessages);
        assert forall|i: int|
            receiver.acknacks.len() <= i < after.acknacks.len() implies (
        #[trigger] after.acknacks[i]).0 == receiver.context.source_guid_prefix by {
            if i < before.acknacks.len() {
                assert(after.acknacks[i] == before.acknacks[i]);
            }
        }
        assert forall|i: int|
            receiver.liveness.len() <= i < after.liveness.len() implies (
        #[trigger] after.liveness[i]) == receiver.context.source_guid_prefix by {
            if i < before.liveness.len() {
                assert(after.liveness[i] == before.liveness[i]);
            }
        }
    }
}

/// DATA, HEARTBEAT and HEARTBEAT_FRAG that name a reader, and GAP and
/// DATA_FRAG always, go to the reader they name and to no other.
pub proof fn law_named_reader_only(
    receiver: ReceiverView,
    submessage: EntitySubmessageView,
    reader_id: EntityId,
)
    requires
        match submessage {
            EntitySubmessageView::Data(data, _) => data.reader_id == reader_id && reader_id
                != EntityId::unknown(),
            EntitySubmessageView::Heartbeat(heartbeat, _) => heartbeat.reader_id == reader_id
                && reader_id != EntityId::unknown(),
            EntitySubmessageView::HeartbeatFrag(heartbeatfrag, _) => heartbeatfrag.reader_id
                == reader_id && reader_id != EntityId::unknown(),
            EntitySubmessageView::Gap(gap, _) => gap.reader_id == reader_id,
            EntitySubmessageView::DataFrag(datafrag, _) => datafrag.reader_id == reader_id,
            _ => false,
        },
        receiver.context.is_for(receiver.own_guid_prefix),
    ensures
        ({
            let key = reader_id.value;
            let state = receiver.context.state();
            let after = receiver.after_entity(submessage);
            let event = model::event_for(key, receiver.readers[key], submessage, state);
            let passed_on = model::handed_to_channels(
                submessage,
                receiver.context.source_guid_prefix,
            );
            if receiver.readers.contains_key(key) {
                &&& event is Some
                &&& after.readers == receiver.readers.insert(
                    key,
                    receiver.readers[key].handed(event->0),
                )
                &&& after.effects == receiver.effects.push(
                    model::to_reader(key, event->0),
                ) + passed_on
            } else {
                &&& after.readers == receiver.readers
                &&& after.effects == receiver.effects + passed_on
            }
        }),
{
    let key = reader_id.value;
    let state = receiver.context.state();
    let after = receiver.after_entity(submessage);
    order::lemma_in_order(receiver.readers.dom());
    model::lemma_handed_to_one(
        order::in_order(receiver.readers.dom()),
        key,
        receiver.readers,
        submessage,
        state,
    );
    let event = model::event_for(key, receiver.readers[key], submessage, state);
    if receiver.readers.contains_key(key) {
        assert(after.readers =~= receiver.readers.insert(
            key,
            receiver.readers[key].handed(event->0),
        ));
        assert(after.effects =~= receiver.effects.push(
            model::to_reader(key, event->0),
        ) + model::handed_to_channels(submessage, receiver.context.source_guid_prefix));
    } else {
        assert(after.readers =~= receiver.readers);
        assert(after.effects =~= receiver.effects + model::handed_to_channels(
            submessage,
            receiver.context.source_guid_prefix,
        ));
    }
}

/// What the readers are handed on one entity submessage, they are handed in
/// ascending order of their identifiers, and before anything goes to a
/// channel. A reader is handed what is for it, once, and nothing else.
pub proof fn law_readers_are_served_in_order(
    receiver: ReceiverView,
    submessage: EntitySubmessageView,
)
    requires
        receiver.context.is_for(receiver.own_guid_prefix),
    ensures
        ({
            let before = receiver.effects;
            let after = receiver.after_entity(submessage).effects;
            let state = receiver.context.state();
            &&& before.is_prefix_of(after)
            &&& forall|i: int, j: int|
                #![trigger after[i], after[j]]
                before.len() <= i < j < after.len() && after[j] is ToReader ==> {
                    &&& after[i] is ToReader
                    &&& after[i]->reader_id.value < after[j]->reader_id.value
                }
            &&& forall|key: u32, event: ReaderEventView|
                after.skip(before.len() as int).contains(
                    #[trigger] model::to_reader(key, event),
                ) <==> receiver.readers.contains_key(key) && model::event_for(
                    key,
                    receiver.readers[key],
                    submessage,
                    state,
                ) == Some(event)
        }),
{
    let before = receiver.effects;
    let after = receiver.after_entity(submessage).effects;
    let state = receiver.context.state();
    let keys = order::in_order(receiver.readers.dom());
    let handed = model::handed_to(keys, receiver.readers, submessage, state);
    let passed_on = model::handed_to_channels(submessage, receiver.context.source_guid_prefix);
    order::lemma_in_order(receiver.readers.dom());
    lemma_handed_to(keys, receiver.readers, submessage, state);
    assert(after =~= before + handed + passed_on);
    let new = after.skip(before.len() as int);
    assert(new =~= handed + passed_on);
    assert forall|i: int, j: int|
        #![trigger after[i], after[j]]
        before.len() <= i < j < after.len() && after[j] is ToReader implies {
        &&& after[i] is ToReader
        &&& after[i]->reader_id.value < after[j]->reader_id.value
    } by {
        assert(after[j] == new[j - before.len()]);
        assert(after[i] == handed[i - before.len()]);
        assert(after[j] == handed[j - before.len()]);
    }
    assert forall|key: u32, event: ReaderEventView|
        new.contains(#[trigger] model::to_reader(key, event)) <==> handed.contains(
            model::to_reader(key, event),
        ) by {
        let effect = model::to_reader(key, event);
        if new.contains(effect) {
            assert(handed[new.index_of(effect)] == effect);
        }
        if handed.contains(effect) {
            assert(new[handed.index_of(effect)] == effect);
        }
    }
}

pub proof fn lemma_handed_to(
    keys: Seq<u32>,
    readers: Map<u32, ReaderView>,
    submessage: EntitySubmessageView,
    state: MessageReceiverStateView,
)
    requires
        order::ascends(keys),
    ensures
        ({
            let handed = model::handed_to(keys, readers, submessage, state);
            &&& forall|i: int|
                0 <= i < handed.len() ==> (#[trigger] handed[i]) is ToReader && keys.contains(
                    handed[i]->reader_id.value,
                )
            &&& forall|i: int, j: int|
                0 <= i < j < handed.len() ==> (#[trigger] handed[i])->reader_id.value < (
                #[trigger] handed[j])->reader_id.value
            &&& forall|key: u32, event: ReaderEventView|
                handed.contains(#[trigger] model::to_reader(key, event))
                    <==> keys.contains(key) && model::event_for(
                    key,
                    readers[key],
                    submessage,
                    state,
                ) == Some(event)
        }),
    decreases keys.len(),
{
    let handed = model::handed_to(keys, readers, submessage, state);
    if keys.len() > 0 {
        let front = keys.drop_last();
        let last = keys.last();
        let before = model::handed_to(front, readers, submessage, state);
        lemma_handed_to(front, readers, submessage, state);
        assert forall|i: int| 0 <= i < handed.len() implies (#[trigger] handed[i]) is ToReader
            && keys.contains(handed[i]->reader_id.value) by {
            if i < before.len() {
                assert(handed[i] == before[i]);
                let key = handed[i]->reader_id.value;
                assert(keys[front.index_of(key)] == key);
            } else {
                assert(keys[keys.len() - 1] == last);
            }
        }
        assert forall|i: int, j: int| 0 <= i < j < handed.len() implies (
        #[trigger] handed[i])->reader_id.value < (#[trigger] handed[j])->reader_id.value by {
            assert(handed[i] == before[i]);
            if j < before.len() {
                assert(handed[j] == before[j]);
            } else {
                let k = front.index_of(before[i]->reader_id.value);
                assert(keys[k] < keys[keys.len() - 1]);
            }
        }
        assert forall|key: u32, event: ReaderEventView|
            handed.contains(#[trigger] model::to_reader(key, event))
                <==> keys.contains(key) && model::event_for(
                key,
                readers[key],
                submessage,
                state,
            ) == Some(event) by {
            let effect = model::to_reader(key, event);
            if handed.contains(effect) {
                let i = handed.index_of(effect);
                if i < before.len() {
                    assert(before[i] == effect);
                    assert(before.contains(effect));
                    assert(keys[front.index_of(key)] == key);
                } else {
                    assert(keys[keys.len() - 1] == last);
                }
            }
            if keys.contains(key) && model::event_for(
                key,
                readers[key],
                submessage,
                state,
            ) == Some(event) {
                if key == last {
                    assert(handed[handed.len() - 1] == effect);
                } else {
                    assert(front[keys.index_of(key)] == key);
                    assert(before.contains(effect));
                    assert(handed[before.index_of(effect)] == effect);
                }
            }
        }
    }
}

/// DATA that names no reader goes to the readers matched with its writer. The
/// reader of announcements gets announcements from any writer.
pub proof fn law_data_for_all(
    receiver: ReceiverView,
    data: DataView,
    flags: SubmessageFlags,
    key: u32,
)
    requires
        data.reader_id == EntityId::unknown(),
        receiver.readers.contains_key(key),
        receiver.context.is_for(receiver.own_guid_prefix),
    ensures
        ({
            let reader = receiver.readers[key];
            let next = receiver.after_entity(EntitySubmessageView::Data(data, flags));
            let after = next.readers[key];
            let new = next.effects.skip(receiver.effects.len() as int);
            let event = ReaderEventView::Data { data, flags, state: receiver.context.state() };
            if reader.contains_writer(data.writer_id) || (data.writer_id
                == EntityId::spdp_builtin_participant_writer() && reader.guid.entity_id
                == EntityId::spdp_builtin_participant_reader()) {
                &&& after == reader.handed(event)
                &&& new.contains(model::to_reader(key, event))
            } else {
                &&& after == reader
                &&& forall|e: ReaderEventView|
                    !new.contains(
                        #[trigger] model::to_reader(key, e),
                    )
            }
        }),
{
    law_readers_are_served_in_order(receiver, EntitySubmessageView::Data(data, flags));
}

/// DATA that reaches a reader can be looked up there by its number, with its
/// payload, its writer and its time, unless an earlier change has the number.
pub proof fn law_received_data_can_be_looked_up(
    receiver: ReceiverView,
    data: DataView,
    flags: SubmessageFlags,
    key: u32,
)
    requires
        receiver.readers.contains_key(key),
        receiver.context.is_for(receiver.own_guid_prefix),
        model::reaches(key, receiver.readers[key], data.reader_id, data.writer_id)
            || model::reaches_as_announcement(
            receiver.readers[key],
            data.reader_id,
            data.writer_id,
        ),
    ensures
        ({
            let before = receiver.readers[key].history;
            let after = receiver.after_entity(
                EntitySubmessageView::Data(data, flags),
            ).readers[key].history;
            reader::first_change(after, data.writer_sn) == if reader::first_change(
                before,
                data.writer_sn,
            ) is Some {
                reader::first_change(before, data.writer_sn)
            } else {
                Some(
                    CacheChangeView {
                        writer_guid: GUID {
                            prefix: receiver.context.source_guid_prefix,
                            entity_id: data.writer_id,
                        },
                        sequence_number: data.writer_sn,
                        source_timestamp: receiver.context.source_timestamp,
                        data_value: data.serialized_payload,
                    },
                )
            }
        }),
{
    let before = receiver.readers[key].history;
    let after = receiver.after_entity(
        EntitySubmessageView::Data(data, flags),
    ).readers[key].history;
    assert(after.drop_last() =~= before);
}

/// HEARTBEAT and HEARTBEAT_FRAG that name no reader go to the readers matched
/// with their writer, and to no other.
pub proof fn law_heartbeats_for_all(
    receiver: ReceiverView,
    heartbeat: Heartbeat,
    heartbeatfrag: HeartbeatFrag,
    flags: SubmessageFlags,
    key: u32,
)
    requires
        heartbeat.reader_id == EntityId::unknown(),
        heartbeatfrag.reader_id == EntityId::unknown(),
        receiver.readers.contains_key(key),
        receiver.context.is_for(receiver.own_guid_prefix),
    ensures
        ({
            let reader = receiver.readers[key];
            let next = receiver.after_entity(EntitySubmessageView::Heartbeat(heartbeat, flags));
            let new = next.effects.skip(receiver.effects.len() as int);
            let event = ReaderEventView::Heartbeat {
                heartbeat,
                final_flag: flags.contains(HEARTBEAT_FLAG_FINAL),
                state: receiver.context.state(),
            };
            &&& next.readers[key] == reader
            &&& forall|e: ReaderEventView|
                new.contains(
                    #[trigger] model::to_reader(key, e),
                ) <==> reader.contains_writer(heartbeat.writer_id) && e == event
        }),
        ({
            let reader = receiver.readers[key];
            let next = receiver.after_entity(EntitySubmessageView::HeartbeatFrag(heartbeatfrag, flags));
            let new = next.effects.skip(receiver.effects.len() as int);
            let event = ReaderEventView::HeartbeatFrag {
                heartbeatfrag,
                state: receiver.context.state(),
            };
            &&& next.readers[key] == reader
            &&& forall|e: ReaderEventView|
                new.contains(
                    #[trigger] model::to_reader(key, e),
                ) <==> reader.contains_writer(heartbeatfrag.writer_id) && e == event
        }),
{
    law_readers_are_served_in_order(receiver, EntitySubmessageView::Heartbeat(heartbeat, flags));
    law_readers_are_served_in_order(
        receiver,
        EntitySubmessageView::HeartbeatFrag(heartbeatfrag, flags),
    );
}

/// Every announcement for this participant is passed on to discovery, whether
/// or not there is a reader for it, and after the readers have had it.
pub proof fn law_announcements_reach_discovery(
    receiver: ReceiverView,
    data: DataView,
    flags: SubmessageFlags,
)
    requires
        data.writer_id == EntityId::spdp_builtin_participant_writer(),
        receiver.context.is_for(receiver.own_guid_prefix),
    ensures
        ({
            let source = receiver.context.source_guid_prefix;
            let after = receiver.after_entity(EntitySubmessageView::Data(data, flags));
            &&& after.liveness == receiver.liveness.push(source)
            &&& after.effects.len() > receiver.effects.len()
            &&& after.effects.last() == (EffectView::ToDiscovery { source_guid_prefix: source })
        }),
{
}

/// An acknowledgement for this participant goes to the local writers, along
/// with who sent it, and to no reader.
pub proof fn law_acknowledgements_reach_the_writers(
    receiver: ReceiverView,
    acknack: AckNack,
    flags: SubmessageFlags,
)
    requires
        receiver.context.is_for(receiver.own_guid_prefix),
    ensures
        ({
            let source = receiver.context.source_guid_prefix;
            receiver.after_entity(EntitySubmessageView::AckNack(acknack, flags)) == (ReceiverView {
                acknacks: receiver.acknacks.push((source, AckSubmessage::AckNack(acknack))),
                effects: receiver.effects.push(
                    EffectView::ToWriters {
                        source_guid_prefix: source,
                        acknack: AckSubmessage::AckNack(acknack),
                    },
                ),
                ..receiver
            })
        }),
{
    let submessage = EntitySubmessageView::AckNack(acknack, flags);
    let source = receiver.context.source_guid_prefix;
    let after = receiver.after_entity(submessage);
    lemma_handed_to_nobody(receiver, submessage);
    assert(after.readers =~= receiver.readers);
    assert(after.effects =~= receiver.effects.push(
        EffectView::ToWriters {
            source_guid_prefix: source,
            acknack: AckSubmessage::AckNack(acknack),
        },
    ));
}

/// NACK_FRAG for this participant is ignored.
pub proof fn law_nackfrag_is_ignored(
    receiver: ReceiverView,
    nackfrag: NackFrag,
    flags: SubmessageFlags,
)
    requires
        receiver.context.is_for(receiver.own_guid_prefix),
    ensures
        receiver.after_entity(EntitySubmessageView::NackFrag(nackfrag, flags)) == receiver,
{
    let submessage = EntitySubmessageView::NackFrag(nackfrag, flags);
    let after = receiver.after_entity(submessage);
    lemma_handed_to_nobody(receiver, submessage);
    assert(after.readers =~= receiver.readers);
    assert(after.effects =~= receiver.effects);
}

proof fn lemma_handed_to_nobody(receiver: ReceiverView, submessage: EntitySubmessageView)
    requires
        submessage is AckNack || submessage is NackFrag,
    ensures
        model::handed_to_readers(receiver.readers, submessage, receiver.context.state()) == Seq::<
            EffectView,
        >::empty(),
{
    order::lemma_in_order(receiver.readers.dom());
    model::lemma_handed_to_one(
        order::in_order(receiver.readers.dom()),
        0,
        receiver.readers,
        submessage,
        receiver.context.state(),
    );
}

/// Taking a reader away undoes registering it; registering a second reader
/// under the same entity identifier does nothing; and registering a reader
/// again undoes taking it away.
pub proof fn law_readers_come_and_go(
    receiver: ReceiverView,
    reader: ReaderView,
    second: ReaderView,
    id: EntityId,
)
    requires
        second.guid.entity_id == reader.guid.entity_id,
    ensures
        !receiver.readers.contains_key(reader.guid.entity_id.value) ==> receiver.with_reader(
            reader,
        ).without_reader(reader.guid.entity_id) == receiver,
        receiver.with_reader(reader).with_reader(second) == receiver.with_reader(reader),
        receiver.without_reader(reader.guid.entity_id).with_reader(
            reader,
        ).readers[reader.guid.entity_id.value] == reader,
        receiver.wf() && receiver.readers.contains_key(id.value) ==> receiver.without_reader(
            id,
        ).with_reader(receiver.readers[id.value]) == receiver,
{
    if !receiver.readers.contains_key(reader.guid.entity_id.value) {
        assert(receiver.with_reader(reader).without_reader(reader.guid.entity_id).readers
            =~= receiver.readers);
    }
    if receiver.wf() && receiver.readers.contains_key(id.value) {
        assert(receiver.without_reader(id).with_reader(receiver.readers[id.value]).readers
            =~= receiver.readers);
    }
}

/// Readers are told of something new in the order of the list: one list after
/// another gives the same notices as both in one, a reader that is not there
/// is passed over, and one that is there is told each time that it is named.
pub proof fn law_notices(
    readers: Map<u32, ReaderView>,
    ids: Seq<EntityId>,
    more: Seq<EntityId>,
)
    ensures
        model::notices(readers, ids + more) == model::notices(readers, ids) + model::notices(
            readers,
            more,
        ),
        (forall|i: int| 0 <= i < ids.len() ==> readers.contains_key((#[trigger] ids[i]).value))
            ==> model::notices(readers, ids) == ids.map_values(
            |id: EntityId| model::to_reader(id.value, ReaderEventView::CacheChange),
        ),
        (forall|i: int| 0 <= i < ids.len() ==> !readers.contains_key((#[trigger] ids[i]).value))
            ==> model::notices(readers, ids) == Seq::<EffectView>::empty(),
{
    lemma_notices_in_parts(readers, ids, more);
    lemma_notices(readers, ids);
}

proof fn lemma_notices_in_parts(
    readers: Map<u32, ReaderView>,
    ids: Seq<EntityId>,
    more: Seq<EntityId>,
)
    ensures
        model::notices(readers, ids + more) == model::notices(readers, ids) + model::notices(
            readers,
            more,
        ),
    decreases more.len(),
{
    if more.len() == 0 {
        assert(ids + more =~= ids);
    } else {
        lemma_notices_in_parts(readers, ids, more.drop_last());
        assert((ids + more).drop_last() =~= ids + more.drop_last());
    }
    assert(model::notices(readers, ids + more) =~= model::notices(readers, ids) + model::notices(
        readers,
        more,
    ));
}

proof fn lemma_notices(readers: Map<u32, ReaderView>, ids: Seq<EntityId>)
    ensures
        (forall|i: int| 0 <= i < ids.len() ==> readers.contains_key((#[trigger] ids[i]).value))
            ==> model::notices(readers, ids) == ids.map_values(
            |id: EntityId| model::to_reader(id.value, ReaderEventView::CacheChange),
        ),
        (forall|i: int| 0 <= i < ids.len() ==> !readers.contains_key((#[trigger] ids[i]).value))
            ==> model::notices(readers, ids) == Seq::<EffectView>::empty(),
    decreases ids.len(),
{
    if ids.len() > 0 {
        let front = ids.drop_last();
        lemma_notices(readers, front);
        assert(forall|i: int| 0 <= i < front.len() ==> #[trigger] front[i] == ids[i]);
        assert(ids[ids.len() - 1] == ids.last());
        if forall|i: int| 0 <= i < ids.len() ==> readers.contains_key((#[trigger] ids[i]).value) {
            assert(model::notices(readers, ids) =~= ids.map_values(
                |id: EntityId| model::to_reader(id.value, ReaderEventView::CacheChange),
            ));
        }
    } else {
        assert(model::notices(readers, ids) =~= ids.map_values(
            |id: EntityId| model::to_reader(id.value, ReaderEventView::CacheChange),
        ));
    }
}

/// Every reader is told to send acknowledgements, once, in ascending order of
/// identifiers, and nothing else happens.
pub proof fn law_preemptive_acknacks_in_order(receiver: ReceiverView)
    ensures
        ({
            let after = receiver.after_preemptive_acknacks();
            let new = after.effects.skip(receiver.effects.len() as int);
            &&& after == (ReceiverView { effects: receiver.effects + new, ..receiver })
            &&& forall|i: int|
                0 <= i < new.len() ==> {
                    &&& (#[trigger] new[i]) is ToReader
                    &&& new[i] == model::preemptive_acknacks(new[i]->reader_id.value)
                }
            &&& forall|i: int, j: int|
                0 <= i < j < new.len() ==> (#[trigger] new[i])->reader_id.value < (
                #[trigger] new[j])->reader_id.value
            &&& forall|key: u32|
                new.contains(#[trigger] model::preemptive_acknacks(key))
                    <==> receiver.readers.contains_key(key)
        }),
{
    let keys = order::in_order(receiver.readers.dom());
    order::lemma_in_order(receiver.readers.dom());
    let after = receiver.after_preemptive_acknacks();
    let new = after.effects.skip(receiver.effects.len() as int);
    assert(new =~= keys.map_values(|key: u32| model::preemptive_acknacks(key)));
    assert(after.effects =~= receiver.effects + new);
    assert forall|key: u32|
        new.contains(#[trigger] model::preemptive_acknacks(key))
            <==> receiver.readers.contains_key(key) by {
        if new.contains(model::preemptive_acknacks(key)) {
            let i = new.index_of(model::preemptive_acknacks(key));
            assert(keys[i] == key);
            assert(keys.contains(key));
        }
        if receiver.readers.contains_key(key) {
            assert(receiver.readers.dom().contains(key));
            let i = keys.index_of(key);
            assert(new[i] == model::preemptive_acknacks(key));
        }
    }
}

} // verus!
