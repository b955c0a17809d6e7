//! Handles through which the application sends events to the loop.

use calloop::channel::Sender;
use vstd::prelude::*;

verus! {

/// The sending end of a calloop channel.
#[verifier::external_type_specification]
#[verifier::external_body]
#[verifier::reject_recursive_types(M)]
pub struct ExSender<M>(Sender<M>);

/// `Sender::clone` gives another handle to the same channel: what is sent through the one
/// arrives where it would arrive through the other. A handle stands for its channel, so the two
/// are equal.
pub assume_specification<M>[ <Sender<M> as Clone>::clone ](sender: &Sender<M>) -> (copy: Sender<M>)
    ensures
        copy == *sender,
;

/// Sends events to a loop.
#[derive(Debug)]
#[verifier::reject_recursive_types(M)]
pub struct Proxy<M> {
    user_events_sender: Sender<M>,
}

impl<M> Proxy<M> {
    /// The channel that the events go into.
    pub closed spec fn channel(&self) -> Sender<M> {
        self.user_events_sender
    }

    /// A proxy that sends through this channel.
    pub fn new(user_events_sender: Sender<M>) -> (proxy: Self)
        ensures
            proxy.channel() == user_events_sender,
    {
        Proxy { user_events_sender }
    }

    /// The channel that the events go into.
    pub fn sender(&self) -> (sender: &Sender<M>)
        ensures
            *sender == self.channel(),
    {
        &self.user_events_sender
    }
}

} // verus!
