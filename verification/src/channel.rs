//! The sending ends of the channels on which the message receiver passes
//! things on.
use vstd::prelude::*;

verus! {

/// `mio_extras::channel::SyncSender`, the sending half of a bounded channel.
#[verifier::external_type_specification]
#[verifier::external_body]
#[verifier::reject_recursive_types(T)]
pub struct ExSyncSender<T>(mio_extras::channel::SyncSender<T>);

/// What a channel answers when it is handed a value.
#[derive(Clone, Copy, Debug, PartialEq, Eq, Structural)]
pub enum SendAnswer {
    Sent,
    /// There is no room.
    Full,
    /// There is no receiving end any more.
    Disconnected,
    /// The receiving end could not be woken.
    Io,
}

/// A sender, along with the history of what has been handed to it and of what
/// it has answered.
#[verifier::reject_recursive_types(T)]
pub struct Outlet<T> {
    sender: mio_extras::channel::SyncSender<T>,
    handed: Ghost<Seq<T>>,
    answers: Ghost<Seq<SendAnswer>>,
}

impl<T> Outlet<T> {
    /// The values handed to the sender since the outlet was made, in order.
    pub closed spec fn handed(&self) -> Seq<T> {
        self.handed@
    }

    /// What the sender has answered to each of them.
    pub closed spec fn answers(&self) -> Seq<SendAnswer> {
        self.answers@
    }

    pub fn new(sender: mio_extras::channel::SyncSender<T>) -> (r: Outlet<T>)
        ensures
            r.handed() == Seq::<T>::empty(),
            r.answers() == Seq::<SendAnswer>::empty(),
    {
        Outlet { sender, handed: Ghost(Seq::empty()), answers: Ghost(Seq::empty()) }
    }

    /// Calls `mio_extras::channel::SyncSender::try_send`, which returns at once
    /// whether or not there is room in the channel: the receiving end may be
    /// served by the thread that calls this. The value counts as handed to the
    /// sender, and what is returned as its answer, by the call itself. Nothing
    /// is claimed of which answer it is, which depends on the other end; a
    /// value that does not arrive is dropped.
    #[verifier::external_body]
    pub(crate) fn offer(&mut self, value: T) -> (r: SendAnswer)
        ensures
            final(self).handed() == old(self).handed().push(value),
            final(self).answers() == old(self).answers().push(r),
    {
        match self.sender.try_send(value) {
            Ok(()) => SendAnswer::Sent,
            Err(mio_extras::channel::TrySendError::Full(_)) => SendAnswer::Full,
            Err(mio_extras::channel::TrySendError::Disconnected(_)) => SendAnswer::Disconnected,
            Err(mio_extras::channel::TrySendError::Io(_)) => SendAnswer::Io,
        }
    }
}

} // verus!
