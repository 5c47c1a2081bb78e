//! The channel on which complete sequences are published.

use tokio::sync::broadcast;
use vstd::arithmetic::power2::is_pow2;
use vstd::prelude::*;

use crate::sequence::FlashBlockCompleteSequence;

verus! {

/// How many sequences the channel holds for a slow subscriber before it drops the oldest.
pub const CHANNEL_SIZE: usize = 128;

/// The sending half of a broadcast channel, opaque here.
#[verifier::external_type_specification]
#[verifier::external_body]
#[verifier::reject_recursive_types(T)]
pub struct ExBroadcastSender<T>(broadcast::Sender<T>);

/// The receiving half of a broadcast channel, opaque here.
#[verifier::external_type_specification]
#[verifier::external_body]
#[verifier::reject_recursive_types(T)]
pub struct ExBroadcastReceiver<T>(broadcast::Receiver<T>);

/// How many messages a channel keeps for a slow subscriber; beyond that, a new one overwrites the
/// oldest.
pub uninterp spec fn channel_capacity(sender: broadcast::Sender<FlashBlockCompleteSequence>) -> nat;

/// The sending half of the channel that a subscriber receives from.
pub uninterp spec fn subscribed_to(receiver: broadcast::Receiver<FlashBlockCompleteSequence>) -> broadcast::Sender<FlashBlockCompleteSequence>;

/// Whether a channel has told that it has the given number of subscribers: only a call of
/// [`receiver_count`] on its sending half gives this.
pub closed spec fn reported(
    sender: broadcast::Sender<FlashBlockCompleteSequence>,
    receivers: usize,
) -> bool {
    call_ensures(receiver_count, (&sender,), receivers)
}

/// A number is reported of a channel exactly if [`receiver_count`] can have answered it.
proof fn law_reported(
    sender: broadcast::Sender<FlashBlockCompleteSequence>,
    receivers: usize,
)
    ensures
        reported(sender, receivers) <==> call_ensures(receiver_count, (&sender,), receivers),
{
}

/// Publishes complete sequences to whoever subscribes.
pub struct SequenceBroadcaster {
    sender: broadcast::Sender<FlashBlockCompleteSequence>,
    sent: Ghost<Seq<FlashBlockCompleteSequence>>,
    counted: Ghost<Seq<usize>>,
}

impl SequenceBroadcaster {
    /// The sequences that this broadcaster has handed to the channel, oldest first.
    pub closed spec fn sent(&self) -> Seq<FlashBlockCompleteSequence> {
        self.sent@
    }

    /// How many subscribers there were each time this broadcaster counted them, oldest first.
    pub closed spec fn counted(&self) -> Seq<usize> {
        self.counted@
    }

    /// The sending half of the channel.
    pub closed spec fn channel(&self) -> broadcast::Sender<FlashBlockCompleteSequence> {
        self.sender
    }

    /// Opens a channel without subscribers.
    pub fn new() -> (broadcaster: Self)
        ensures
            broadcaster.sent() == Seq::<FlashBlockCompleteSequence>::empty(),
            broadcaster.counted() == Seq::<usize>::empty(),
            channel_capacity(broadcaster.channel()) == CHANNEL_SIZE,
    {
        assert(is_pow2(CHANNEL_SIZE as int)) by {
            reveal_with_fuel(is_pow2, 8);
        }
        SequenceBroadcaster {
            sender: open_channel(CHANNEL_SIZE),
            sent: Ghost(Seq::empty()),
            counted: Ghost(Seq::empty()),
        }
    }

    /// The sending half of the channel.
    pub fn sender(&self) -> (sender: &broadcast::Sender<FlashBlockCompleteSequence>)
        ensures
            *sender == self.channel(),
    {
        &self.sender
    }

    /// A new subscriber, who receives what is published from now on.
    pub fn subscribe(&self) -> (receiver: broadcast::Receiver<FlashBlockCompleteSequence>)
        ensures
            subscribed_to(receiver) == self.channel(),
    {
        subscribe(&self.sender)
    }

    /// How many subscribers the channel reports now. The answer is recorded in
    /// [`SequenceBroadcaster::counted`].
    pub fn receiver_count(&mut self) -> (receivers: usize)
        ensures
            reported(old(self).channel(), receivers),
            final(self).counted() == old(self).counted().push(receivers),
            final(self).sent() == old(self).sent(),
            final(self).channel() == old(self).channel(),
    {
        let receivers = receiver_count(&self.sender);
        self.counted = Ghost(self.counted@.push(receivers));
        receivers
    }

    /// `Sender::send` of the channel: hands a sequence to every current subscriber, without
    /// waiting for any of them.
    ///
    /// The call is recorded in [`SequenceBroadcaster::sent`], whether or not anybody subscribes.
    /// The result tells whether anybody did, which depends on the rest of the program.
    #[verifier::external_body]
    pub(crate) fn send(&mut self, sequence: FlashBlockCompleteSequence) -> (delivered: bool)
        ensures
            final(self).sent() == old(self).sent().push(sequence),
            final(self).counted() == old(self).counted(),
            final(self).channel() == old(self).channel(),
    {
        self.sender.send(sequence).is_ok()
    }
}

/// `broadcast::channel`: a channel that keeps at least `capacity` messages for a slow subscriber,
/// and exactly so many if that is a power of two; other capacities are rounded up to one. The
/// subscriber that comes with it is dropped. The call panics on the capacities left out here.
#[verifier::external_body]
fn open_channel(capacity: usize) -> (sender: broadcast::Sender<FlashBlockCompleteSequence>)
    requires
        0 < capacity <= usize::MAX / 2,
    ensures
        channel_capacity(sender) >= capacity,
        is_pow2(capacity as int) ==> channel_capacity(sender) == capacity,
{
    broadcast::channel(capacity).0
}

/// `Sender::subscribe`: a new subscriber to the channel of the given sending half, and to no other.
///
/// It receives what is sent on that channel from now on. What that will be is decided by later
/// calls, on any copy of the sending half, and is not stated here. The call panics only beyond a
/// number of subscribers that no memory holds.
#[verifier::external_body]
fn subscribe(
    sender: &broadcast::Sender<FlashBlockCompleteSequence>,
) -> (receiver: broadcast::Receiver<FlashBlockCompleteSequence>)
    ensures
        subscribed_to(receiver) == *sender,
{
    sender.subscribe()
}

/// `Sender::receiver_count`. Nothing is claimed of the number: subscribers come and go at any
/// time.
#[verifier::external_body]
fn receiver_count(sender: &broadcast::Sender<FlashBlockCompleteSequence>) -> (receivers: usize) {
    sender.receiver_count()
}

} // verus!
