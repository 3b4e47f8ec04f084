//! The control channel: how a new target reaches the voice.
//!
//! The side that reads the keys sends one message per key press; the side
//! that renders polls without waiting, and of the messages that have piled
//! up since its last look only the latest counts.

use std::sync::mpsc::{Receiver, TryRecvError};
use vstd::prelude::*;

verus! {

/// A request to glide to `frequency` (micro-hertz).
#[derive(Clone, Copy, Debug, PartialEq, Eq)]
pub struct Retarget {
    pub frequency: u64,
}

/// What one look at the channel finds.
#[derive(Clone, Copy, Debug, PartialEq, Eq)]
pub enum Poll {
    /// A message was waiting.
    Message(Retarget),
    /// Nothing is waiting.
    Empty,
    /// Nothing is waiting and the sender is gone.
    Disconnected,
}

/// Why the channel can no longer be used.
#[derive(Clone, Copy, Debug, PartialEq, Eq)]
pub enum ChannelError {
    /// The sender is gone: no key will ever arrive.
    Disconnected,
}

/// Where a drain stands after one more poll.
#[derive(Clone, Copy, Debug, PartialEq, Eq)]
pub enum Drain {
    /// A message came: it is the latest, and there may be more.
    More(Retarget),
    /// The channel is empty: the drain is over with the latest so far.
    Done(Option<Retarget>),
    /// The sender is gone.
    Lost,
}

/// Where a drain that holds `latest` stands after `poll`.
pub open spec fn settled(latest: Option<Retarget>, poll: Poll) -> Drain {
    match poll {
        Poll::Message(message) => Drain::More(message),
        Poll::Empty => Drain::Done(latest),
        Poll::Disconnected => Drain::Lost,
    }
}

/// What a drain that holds `latest` and then sees `polls`, in this order,
/// ends with: the last message before the channel is first found empty, or
/// before the polls run out; an error where the sender is found gone first.
pub open spec fn drained(polls: Seq<Poll>, latest: Option<Retarget>) -> Result<
    Option<Retarget>,
    ChannelError,
>
    decreases polls.len(),
{
    if polls.len() == 0 {
        Ok(latest)
    } else {
        match settled(latest, polls[0]) {
            Drain::More(message) => drained(polls.drop_first(), Some(message)),
            Drain::Done(kept) => Ok(kept),
            Drain::Lost => Err(ChannelError::Disconnected),
        }
    }
}

/// Takes one poll into a drain that holds `latest`.
pub fn settle(latest: Option<Retarget>, poll: Poll) -> (drain: Drain)
    ensures
        drain == settled(latest, poll),
{
    match poll {
        Poll::Message(message) => Drain::More(message),
        Poll::Empty => Drain::Done(latest),
        Poll::Disconnected => Drain::Lost,
    }
}

/// A drain over polls that are all messages ends with the last of them.
pub proof fn lemma_burst_keeps_last(polls: Seq<Poll>, latest: Option<Retarget>)
    requires
        polls.len() > 0,
        forall|i: int| 0 <= i < polls.len() ==> #[trigger] polls[i] is Message,
    ensures
        drained(polls, latest) == Ok::<Option<Retarget>, ChannelError>(
            Some(polls.last()->Message_0),
        ),
    decreases polls.len(),
{
    let rest = polls.drop_first();
    assert(polls[0] is Message);
    if rest.len() > 0 {
        assert forall|i: int| 0 <= i < rest.len() implies #[trigger] rest[i] is Message by {
            assert(rest[i] == polls[i + 1]);
        }
        assert(rest.last() == polls.last());
        lemma_burst_keeps_last(rest, Some(polls[0]->Message_0));
    }
}

/// Coalesces the polls of one drain: the latest message before the channel
/// was first found empty.
pub fn coalesce(polls: &Vec<Poll>) -> (r: Result<Option<Retarget>, ChannelError>)
    ensures
        r == drained(polls@, None),
{
    let mut latest: Option<Retarget> = None;
    let mut i: usize = 0;
    assert(polls@.skip(0) == polls@);
    while i < polls.len()
        invariant
            0 <= i <= polls.len(),
            drained(polls@, None) == drained(polls@.skip(i as int), latest),
        decreases polls.len() - i,
    {
        let ghost rest = polls@.skip(i as int);
        assert(rest[0] == polls[i as int]);
        assert(rest.drop_first() == polls@.skip(i + 1));
        match settle(latest, polls[i]) {
            Drain::More(message) => {
                latest = Some(message);
            },
            Drain::Done(kept) => {
                return Ok(kept);
            },
            Drain::Lost => {
                return Err(ChannelError::Disconnected);
            },
        }
        i = i + 1;
    }
    Ok(latest)
}

/// The receiving end of a channel of the standard library.
#[verifier::external_type_specification]
#[verifier::external_body]
#[verifier::reject_recursive_types(T)]
pub struct ExReceiver<T>(Receiver<T>);

/// Looks at the channel once, without waiting, with `Receiver::try_recv`.
/// Trusted, and nothing is claimed: what is found depends on the sender.
#[verifier::external_body]
fn try_receive(source: &Receiver<Retarget>) -> Poll {
    match source.try_recv() {
        Ok(message) => Poll::Message(message),
        Err(TryRecvError::Empty) => Poll::Empty,
        Err(TryRecvError::Disconnected) => Poll::Disconnected,
    }
}

/// Drains the channel without waiting: polls until it is found empty, and
/// at most `budget` times, and keeps the latest message. What comes back is
/// what some run of at most `budget` polls ends with; so nothing is taken
/// where the budget is zero.
pub fn drain(source: &Receiver<Retarget>, budget: usize) -> (r: Result<
    Option<Retarget>,
    ChannelError,
>)
    ensures
        exists|polls: Seq<Poll>| polls.len() <= budget && r == #[trigger] drained(polls, None),
{
    let mut latest: Option<Retarget> = None;
    let mut polled: usize = 0;
    let ghost mut seen: Seq<Poll> = Seq::empty();
    while polled < budget
        invariant
            polled <= budget,
            seen.len() == polled,
            forall|i: int| 0 <= i < seen.len() ==> #[trigger] seen[i] is Message,
            drained(seen, None) == Ok::<Option<Retarget>, ChannelError>(latest),
        decreases budget - polled,
    {
        let poll = try_receive(source);
        let ghost before = seen;
        proof {
            seen = seen.push(poll);
            lemma_drained_push(before, poll, None);
        }
        match settle(latest, poll) {
            Drain::More(message) => {
                latest = Some(message);
            },
            Drain::Done(kept) => {
                return Ok(kept);
            },
            Drain::Lost => {
                return Err(ChannelError::Disconnected);
            },
        }
        polled = polled + 1;
    }
    Ok(latest)
}

/// One more poll after a run of messages settles against the latest of
/// them.
proof fn lemma_drained_push(polls: Seq<Poll>, poll: Poll, latest: Option<Retarget>)
    requires
        forall|i: int| 0 <= i < polls.len() ==> #[trigger] polls[i] is Message,
    ensures
        drained(polls, latest) is Ok,
        drained(polls.push(poll), latest) == match settled(drained(polls, latest)->Ok_0, poll) {
            Drain::More(message) => Ok::<Option<Retarget>, ChannelError>(Some(message)),
            Drain::Done(kept) => Ok(kept),
            Drain::Lost => Err(ChannelError::Disconnected),
        },
    decreases polls.len(),
{
    reveal_with_fuel(drained, 2);
    if polls.len() == 0 {
        assert(polls.push(poll)[0] == poll);
        assert(polls.push(poll).drop_first() =~= Seq::<Poll>::empty());
    } else {
        assert(polls.push(poll)[0] == polls[0]);
        let rest = polls.drop_first();
        assert(polls[0] is Message);
        assert forall|i: int| 0 <= i < rest.len() implies #[trigger] rest[i] is Message by {
            assert(rest[i] == polls[i + 1]);
        }
        assert(polls.push(poll).drop_first() =~= rest.push(poll));
        lemma_drained_push(rest, poll, Some(polls[0]->Message_0));
    }
}

} // verus!
