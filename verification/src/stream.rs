//! Subscriptions on the control socket: who gets one, what is written to it and in
//! which order, and how a client reads it.
use crate::control::SUBSCRIPTION_SLOTS;
use vstd::prelude::*;

verus! {

/// Told to a subscriber for whom no slot is left, so that it can back off.
pub const TOO_MANY: &'static str = "too many subscriptions; retry shortly";

/// What a client reports of a service that refused without saying why.
pub const CANNOT_STREAM: &'static str = "this Cirrove service cannot stream changes";

/// Whether another subscription gets a slot. One over the limit is answered with a
/// refusal; it is not dropped.
pub fn take_slot(held: usize) -> (slot: Result<(), String>)
    ensures
        held < SUBSCRIPTION_SLOTS ==> slot is Ok,
        held >= SUBSCRIPTION_SLOTS ==> slot is Err && slot->Err_0@ == TOO_MANY@,
{
    if held < SUBSCRIPTION_SLOTS {
        Ok(())
    } else {
        Err(TOO_MANY.to_string())
    }
}

/// What comes to a subscription from the daemon's own stream of changes.
pub enum Arrival<E> {
    /// The subscription has just been attached to the changes.
    Attached,
    /// A change.
    Change(E),
    /// This many changes were missed.
    Missed(u64),
    /// There will be no more changes.
    Closed,
}

/// What is written to a subscriber.
pub enum Written<E> {
    /// An event that says something of an account.
    Event(E),
    /// This many events were dropped.
    Lagged(u64),
    /// The current state has been told in full.
    Ready,
}

/// The current state told in full: its events, and a marker at the end.
pub open spec fn primed<E>(current: Seq<E>) -> Seq<Written<E>> {
    Seq::new(current.len(), |i: int| Written::Event(current[i])).push(Written::Ready)
}

/// What is written for an arrival, given the events of the current state. `None`
/// ends the stream.
pub open spec fn told<E>(arrival: Arrival<E>, current: Seq<E>) -> Option<Seq<Written<E>>> {
    match arrival {
        Arrival::Attached => Some(primed(current)),
        Arrival::Change(event) => Some(seq![Written::Event(event)]),
        Arrival::Missed(dropped) => Some(seq![Written::Lagged(dropped)] + primed(current)),
        Arrival::Closed => None,
    }
}

/// Appends the events of the current state and the marker that ends them.
fn tell_current<E>(written: Vec<Written<E>>, current: Vec<E>) -> (all: Vec<Written<E>>)
    ensures
        all@ == written@ + primed(current@),
{
    let mut all = written;
    let ghost start = written@;
    let ghost events = current@;
    let mut rest = current;
    let mut reversed: Vec<E> = Vec::new();
    while rest.len() > 0
        invariant
            rest@.len() + reversed@.len() == events.len(),
            forall|i: int| 0 <= i < rest@.len() ==> rest@[i] == events[i],
            forall|i: int|
                0 <= i < reversed@.len() ==> reversed@[i] == events[events.len() - 1 - i],
        decreases rest@.len(),
    {
        if let Some(event) = rest.pop() {
            reversed.push(event);
        }
    }
    let ghost wrapped = Seq::new(events.len(), |i: int| Written::Event(events[i]));
    proof {
        assert(start + wrapped.subrange(0, 0) =~= start);
    }
    while reversed.len() > 0
        invariant
            reversed@.len() <= events.len(),
            wrapped == Seq::new(events.len(), |i: int| Written::Event(events[i])),
            forall|i: int|
                0 <= i < reversed@.len() ==> reversed@[i] == events[events.len() - 1 - i],
            all@ == start + wrapped.subrange(0, events.len() - reversed@.len()),
        decreases reversed@.len(),
    {
        let ghost at = events.len() - reversed@.len();
        if let Some(event) = reversed.pop() {
            proof {
                assert(wrapped[at] == Written::Event(event));
                assert(start + wrapped.subrange(0, at + 1) =~= (start + wrapped.subrange(
                    0,
                    at,
                )).push(wrapped[at]));
            }
            all.push(Written::Event(event));
        }
    }
    proof {
        assert(wrapped.subrange(0, events.len() as int) =~= wrapped);
        assert((start + wrapped).push(Written::Ready) =~= start + primed(events));
    }
    all.push(Written::Ready);
    all
}

/// What to write for an arrival. Every event is a level, so the current state is the
/// cure for having missed some. `None` ends the stream.
pub fn answer<E>(arrival: Arrival<E>, current: Vec<E>) -> (written: Option<Vec<Written<E>>>)
    ensures
        match told(arrival, current@) {
            Some(all) => written is Some && written->0@ == all,
            None => written is None,
        },
{
    match arrival {
        Arrival::Attached => {
            let all = tell_current(Vec::new(), current);
            proof {
                assert(all@ =~= primed(current@));
            }
            Some(all)
        },
        Arrival::Change(event) => {
            let all = vec![Written::Event(event)];
            proof {
                assert(all@ =~= seq![Written::Event(event)]);
            }
            Some(all)
        },
        Arrival::Missed(dropped) => {
            let start = vec![Written::Lagged(dropped)];
            proof {
                assert(start@ =~= seq![Written::Lagged(dropped)]);
            }
            Some(tell_current(start, current))
        },
        Arrival::Closed => None,
    }
}

/// A subscriber is always written something, even by a daemon without accounts: what
/// it hears first ends with the marker, and the same marker follows every gap.
pub proof fn the_current_state_ends_with_a_marker<E>(arrival: Arrival<E>, current: Seq<E>)
    requires
        arrival is Attached || arrival is Missed,
    ensures
        told(arrival, current) is Some,
        told(arrival, current)->0.len() > current.len(),
        told(arrival, current)->0.last() == Written::<E>::Ready,
{
}

/// The first line of an answer to `subscribe`, as it can be read.
pub enum FirstLine<E> {
    /// An event.
    Event(E),
    /// A refusal, with or without its reason.
    Refusal(Option<String>),
    /// Neither.
    Unreadable,
}

/// Why no subscription was opened.
#[derive(Debug)]
pub enum OpenError {
    /// The service refused, for this reason.
    Refused(String),
    /// The service sent neither an event nor a refusal.
    Unreadable,
}

/// A live subscription. The line that told the stream from a refusal is an event
/// that the caller is owed.
pub struct Subscription<E> {
    pub pending: Option<E>,
}

/// A later line of a subscription, as it can be read.
pub enum NextLine<E> {
    /// An event that this build knows.
    Event(E),
    /// An event that a newer daemon knows.
    Unknown,
    /// The daemon closed the stream.
    Closed,
}

/// What a reader of a subscription does next.
pub enum Reading<E> {
    /// Hand this out; `None` says that the stream has ended.
    Give(Option<E>),
    /// Read another line.
    Again,
}

impl<E> Subscription<E> {
    /// Opens a subscription from the first line of the answer.
    pub fn open(first: FirstLine<E>) -> (opened: Result<Self, OpenError>)
        ensures
            match first {
                FirstLine::Event(event) => opened is Ok && opened->Ok_0.pending == Some(event),
                FirstLine::Refusal(Some(reason)) => opened == Err::<Self, OpenError>(
                    OpenError::Refused(reason),
                ),
                FirstLine::Refusal(None) => opened matches Err(OpenError::Refused(reason))
                    && reason@ == CANNOT_STREAM@,
                FirstLine::Unreadable => opened == Err::<Self, OpenError>(OpenError::Unreadable),
            },
    {
        match first {
            FirstLine::Event(event) => Ok(Subscription { pending: Some(event) }),
            FirstLine::Refusal(Some(reason)) => Err(OpenError::Refused(reason)),
            FirstLine::Refusal(None) => Err(OpenError::Refused(CANNOT_STREAM.to_string())),
            FirstLine::Unreadable => Err(OpenError::Unreadable),
        }
    }

    /// What to do before any line is read: the event that is owed comes first.
    pub fn next(&mut self) -> (reading: Reading<E>)
        ensures
            final(self).pending is None,
            match old(self).pending {
                Some(event) => reading == Reading::Give(Some(event)),
                None => reading is Again,
            },
    {
        match self.pending.take() {
            Some(event) => Reading::Give(Some(event)),
            None => Reading::Again,
        }
    }

    /// What to do with the next line: an event of a newer daemon is stepped over.
    pub fn read(line: NextLine<E>) -> (reading: Reading<E>)
        ensures
            match line {
                NextLine::Event(event) => reading == Reading::Give(Some(event)),
                NextLine::Unknown => reading is Again,
                NextLine::Closed => reading == Reading::<E>::Give(None),
            },
    {
        match line {
            NextLine::Event(event) => Reading::Give(Some(event)),
            NextLine::Unknown => Reading::Again,
            NextLine::Closed => Reading::Give(None),
        }
    }
}

/// Every change is told as it is and alone; after a gap its length is told first, and then
/// the whole current state in order. Only the end of the changes ends a subscription.
pub proof fn subscribers_are_told_what_happened<E>(
    change: E,
    missed: u64,
    current: Seq<E>,
    i: int,
)
    requires
        0 <= i < current.len(),
    ensures
        told(Arrival::Change(change), current) is Some,
        told(Arrival::Change(change), current)->0.len() == 1,
        told(Arrival::Change(change), current)->0[0] == Written::Event(change),
        told(Arrival::Attached, current) is Some,
        told(Arrival::Attached, current)->0.len() == current.len() + 1,
        told(Arrival::Attached, current)->0[i] == Written::Event(current[i]),
        told(Arrival::Attached, current)->0[current.len() as int] == Written::<E>::Ready,
        told(Arrival::<E>::Missed(missed), current) is Some,
        told(Arrival::<E>::Missed(missed), current)->0.len() == current.len() + 2,
        told(Arrival::<E>::Missed(missed), current)->0[0] == Written::<E>::Lagged(missed),
        told(Arrival::<E>::Missed(missed), current)->0[i + 1] == Written::Event(current[i]),
        told(Arrival::<E>::Missed(missed), current)->0[(current.len() + 1) as int]
            == Written::<E>::Ready,
        told(Arrival::<E>::Closed, current) is None,
{
}

} // verus!
