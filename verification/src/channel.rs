use crossbeam_channel::Sender;
use vstd::prelude::*;

verus! {

/// `crossbeam_channel::Sender`, the sending half of a channel, carried opaquely.
#[verifier::external_type_specification]
#[verifier::external_body]
#[verifier::reject_recursive_types(T)]
pub struct ExSender<T>(crossbeam_channel::Sender<T>);

/// A channel, with a record of what was offered to it from here.
#[verifier::reject_recursive_types(T)]
pub(crate) struct Outlet<T> {
    tx: Sender<T>,
    offered: Ghost<Seq<T>>,
}

impl<T> Outlet<T> {
    pub closed spec fn channel(&self) -> Sender<T> {
        self.tx
    }

    /// The messages offered so far, in order.
    pub closed spec fn offered(&self) -> Seq<T> {
        self.offered@
    }

    pub(crate) fn new(tx: Sender<T>) -> (r: Self)
        ensures
            r.channel() == tx,
            r.offered() == Seq::<T>::empty(),
    {
        Outlet { tx, offered: Ghost(Seq::empty()) }
    }

    /// `Sender::try_send`: offers the message to the channel without blocking
    /// and says whether the channel took it.  The record is what was handed to
    /// this call; it grows by the message, whatever comes of it.  A full or
    /// disconnected channel drops the message.  Which of these happens depends
    /// on the other end, so nothing is claimed of the answer.
    #[verifier::external_body]
    pub(crate) fn offer(&mut self, message: T) -> (taken: bool)
        ensures
            final(self).channel() == old(self).channel(),
            final(self).offered() == old(self).offered().push(message),
    {
        self.tx.try_send(message).is_ok()
    }
}

} // verus!
