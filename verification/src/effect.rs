//! What comes of the submessages that a receiver handles and of what it is
//! asked to do.
use vstd::prelude::*;

use crate::channel::SendAnswer;
use crate::guid::EntityId;
use crate::guid::GuidPrefix;
use crate::reader::ReaderEvent;
use crate::reader::ReaderEventView;
use crate::submessages::AckSubmessage;

verus! {

#[derive(Debug)]
pub enum Effect {
    /// A reader was handed something to act on.
    ToReader { reader_id: EntityId, event: ReaderEvent },
    /// The channel to the local writers was handed an acknowledgement.
    ToWriters { source_guid_prefix: GuidPrefix, acknack: AckSubmessage, answer: SendAnswer },
    /// The channel to discovery was told that a participant is alive.
    ToDiscovery { source_guid_prefix: GuidPrefix, answer: SendAnswer },
    /// An entity submessage for another participant was dropped.
    Dropped { dest_guid_prefix: GuidPrefix },
}

/// An effect, less what a channel has answered: that is not up to the
/// receiver.
pub enum EffectView {
    ToReader { reader_id: EntityId, event: ReaderEventView },
    ToWriters { source_guid_prefix: GuidPrefix, acknack: AckSubmessage },
    ToDiscovery { source_guid_prefix: GuidPrefix },
    Dropped { dest_guid_prefix: GuidPrefix },
}

impl View for Effect {
    type V = EffectView;

    open spec fn view(&self) -> EffectView {
        match *self {
            Effect::ToReader { reader_id, event } => {
                EffectView::ToReader { reader_id, event: event@ }
            },
            Effect::ToWriters { source_guid_prefix, acknack, answer } => {
                EffectView::ToWriters { source_guid_prefix, acknack }
            },
            Effect::ToDiscovery { source_guid_prefix, answer } => {
                EffectView::ToDiscovery { source_guid_prefix }
            },
            Effect::Dropped { dest_guid_prefix } => EffectView::Dropped { dest_guid_prefix },
        }
    }
}

pub open spec fn effects_view(effects: Seq<Effect>) -> Seq<EffectView> {
    effects.map_values(|e: Effect| e@)
}

/// What the channel to the local writers has answered, by these effects.
pub open spec fn writers_answers(effects: Seq<Effect>) -> Seq<SendAnswer>
    decreases effects.len(),
{
    if effects.len() == 0 {
        seq![]
    } else {
        let before = writers_answers(effects.drop_last());
        match effects.last() {
            Effect::ToWriters { source_guid_prefix, acknack, answer } => before.push(answer),
            _ => before,
        }
    }
}

/// What the channel to discovery has answered, by these effects.
pub open spec fn discovery_answers(effects: Seq<Effect>) -> Seq<SendAnswer>
    decreases effects.len(),
{
    if effects.len() == 0 {
        seq![]
    } else {
        let before = discovery_answers(effects.drop_last());
        match effects.last() {
            Effect::ToDiscovery { source_guid_prefix, answer } => before.push(answer),
            _ => before,
        }
    }
}

/// Adds an effect to the list.
pub(crate) fn push_effect(effects: &mut Vec<Effect>, effect: Effect)
    ensures
        final(effects)@ == old(effects)@.push(effect),
        effects_view(final(effects)@) == effects_view(old(effects)@).push(effect@),
        writers_answers(final(effects)@) == match effect {
            Effect::ToWriters { source_guid_prefix, acknack, answer } => writers_answers(
                old(effects)@,
            ).push(answer),
            _ => writers_answers(old(effects)@),
        },
        discovery_answers(final(effects)@) == match effect {
            Effect::ToDiscovery { source_guid_prefix, answer } => discovery_answers(
                old(effects)@,
            ).push(answer),
            _ => discovery_answers(old(effects)@),
        },
{
    effects.push(effect);
    assert(effects@.drop_last() =~= old(effects)@);
    assert(effects_view(effects@) =~= effects_view(old(effects)@).push(effect@));
}

} // verus!
