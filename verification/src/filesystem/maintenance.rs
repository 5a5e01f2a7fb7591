//! One pass of maintenance over fully acknowledged edits, as the steps between the
//! outside work: merging what is durable, asking whether anybody uses an object, asking
//! the provider, and detaching.
use crate::filesystem::projection::WriteError;
use crate::filesystem::writeback::{
    failing, failures_double_the_wait, handoff_outcome, handoff_reply, is_cached, reply_target, RefreshReply, Retries, Retry,
};
use crate::model::{node_view, Id, Node};
use vstd::prelude::*;

verus! {

/// An object that a pass looks at: whether all of it is acknowledged, and the remote
/// item that was.
#[derive(Debug)]
pub struct Candidate {
    pub id: Id,
    pub clean: bool,
    pub remote: Option<Node>,
}

/// Where a pass stands with its current candidate.
#[derive(Clone, Copy, Debug, PartialEq, Eq, Structural)]
pub enum Stage {
    /// Its durable state is being shown.
    Merging,
    /// Somebody may be using it.
    Probing,
    /// Its cached metadata is being read.
    Looking,
    /// The provider is being asked.
    Asking,
    /// It is being taken for exclusive use.
    Claiming,
    /// It is being detached.
    Detaching,
    /// The pass is over.
    Over,
}

/// What became of the last action.
#[derive(Debug)]
pub enum Event {
    /// The durable state is shown, or cannot be.
    Merged(Result<(), WriteError>),
    /// Nobody uses the object, or somebody does.
    Idle(bool),
    /// The metadata in the cache.
    Cached(Result<Option<Node>, WriteError>),
    /// The provider's answer.
    Replied(RefreshReply),
    /// The account is being stopped.
    Cancelled,
    /// The object is detached, or could not be.
    Detached(Result<(), WriteError>),
}

/// What to do next.
#[derive(Clone, Copy, Debug, PartialEq, Eq)]
pub enum Action {
    /// Show the durable state of the object.
    Merge(Id),
    /// Try whether anybody uses the object, without keeping others out.
    Probe(Id),
    /// Read the cached metadata of its remote item.
    Look(Id),
    /// Ask the provider for its remote item.
    Ask(Id),
    /// Take the object for exclusive use.
    Claim(Id),
    /// Detach the object from its local bytes, in favour of the target.
    Detach(Id),
    /// The pass is over; the answer says whether something was done.
    Finish(Result<bool, WriteError>),
}

/// One pass over a batch of candidates.
#[derive(Debug)]
pub struct Maintenance {
    pub candidates: Vec<Candidate>,
    pub at: usize,
    pub stage: Stage,
    /// The metadata that the current candidate is handed off to.
    pub target: Option<Node>,
    /// Where the next pass goes on.
    pub cursor: Option<Id>,
}

/// What is known of a pass.
pub struct Pass {
    pub candidates: Seq<Candidate>,
    pub at: int,
    pub stage: Stage,
    pub target: Option<Node>,
    pub cursor: Option<Id>,
}

impl View for Maintenance {
    type V = Pass;

    open spec fn view(&self) -> Pass {
        Pass {
            candidates: self.candidates@,
            at: self.at as int,
            stage: self.stage,
            target: self.target,
            cursor: self.cursor,
        }
    }
}

/// A pass that is not over has a current candidate, and the next pass goes on behind
/// it: pending and open objects yield to others.
pub open spec fn sound(pass: Pass) -> bool {
    pass.stage == Stage::Over || {
        &&& 0 <= pass.at < pass.candidates.len()
        &&& pass.cursor == Some(pass.candidates[pass.at].id)
        &&& (pass.stage == Stage::Looking || pass.stage == Stage::Asking)
            ==> pass.candidates[pass.at].remote is Some
        &&& (pass.stage == Stage::Claiming || pass.stage == Stage::Detaching)
            ==> pass.target is Some
    }
}

/// The event is an outcome of what was being done.
pub open spec fn fits(stage: Stage, event: Event) -> bool {
    match stage {
        Stage::Merging => event is Merged,
        Stage::Probing => event is Idle,
        Stage::Looking => event is Cached,
        Stage::Asking => event is Replied || event is Cancelled,
        Stage::Claiming => event is Idle,
        Stage::Detaching => event is Detached,
        Stage::Over => false,
    }
}

/// A pass at one of its candidates, or at its end.
pub open spec fn turned(pass: Pass, at: int) -> (Pass, Action) {
    if at < pass.candidates.len() {
        let id = pass.candidates[at].id;
        (Pass { at, stage: Stage::Merging, cursor: Some(id), ..pass }, Action::Merge(id))
    } else {
        ended(pass, Ok(false))
    }
}

/// A pass that ends with an answer.
pub open spec fn ended(pass: Pass, answer: Result<bool, WriteError>) -> (Pass, Action) {
    (Pass { stage: Stage::Over, ..pass }, Action::Finish(answer))
}

/// A pass with a target for its candidate.
pub open spec fn targeted(pass: Pass, target: Node) -> (Pass, Action) {
    (
        Pass { stage: Stage::Claiming, target: Some(target), ..pass },
        Action::Claim(pass.candidates[pass.at].id),
    )
}

/// The next state of a pass and what to do. `waits` says that the current candidate
/// failed a moment ago.
pub open spec fn stepped(pass: Pass, waits: bool, event: Event) -> (Pass, Action) {
    let candidate = pass.candidates[pass.at];
    match (pass.stage, event) {
        (Stage::Merging, Event::Merged(Ok(_))) => if candidate.clean && !waits {
            (Pass { stage: Stage::Probing, ..pass }, Action::Probe(candidate.id))
        } else {
            turned(pass, pass.at + 1)
        },
        (Stage::Merging, Event::Merged(Err(error))) => ended(pass, Err(error)),
        (Stage::Probing, Event::Idle(idle)) => if !idle {
            turned(pass, pass.at + 1)
        } else if candidate.remote is None {
            ended(pass, Err(WriteError::Failure))
        } else {
            (Pass { stage: Stage::Looking, ..pass }, Action::Look(candidate.id))
        },
        (Stage::Looking, Event::Cached(Err(error))) => ended(pass, Err(error)),
        (Stage::Looking, Event::Cached(Ok(cached))) => if node_view(cached) == node_view(
            candidate.remote,
        ) {
            targeted(pass, candidate.remote->0)
        } else {
            (Pass { stage: Stage::Asking, ..pass }, Action::Ask(candidate.id))
        },
        (Stage::Asking, Event::Cancelled) => ended(pass, Ok(false)),
        (Stage::Asking, Event::Replied(reply)) => match reply_target(candidate.remote->0, reply) {
            Ok(node) => targeted(pass, node),
            Err(error) => ended(pass, Err(error)),
        },
        (Stage::Claiming, Event::Idle(idle)) => if idle {
            (Pass { stage: Stage::Detaching, ..pass }, Action::Detach(candidate.id))
        } else {
            ended(pass, Ok(true))
        },
        (Stage::Detaching, Event::Detached(Ok(_))) => ended(pass, Ok(true)),
        (Stage::Detaching, Event::Detached(Err(error))) => if error == WriteError::Stale {
            ended(pass, Ok(true))
        } else {
            ended(pass, Err(error))
        },
        _ => (pass, Action::Finish(Err(WriteError::Failure))),
    }
}

/// When each object is tried again, after a step: a failed request spaces out the
/// next, and metadata in hand forgets earlier failures.
pub open spec fn spaced(pass: Pass, event: Event, retries: Map<Id, Retry>, now: u64) -> Map<
    Id,
    Retry,
> {
    let id = pass.candidates[pass.at].id;
    let next = stepped(pass, false, event);
    if pass.stage == Stage::Asking && event is Replied && next.1 is Finish {
        failing(retries, id, now)
    } else if (pass.stage == Stage::Looking || pass.stage == Stage::Asking) && next.1 is Claim {
        retries.remove(id)
    } else {
        retries
    }
}

impl Maintenance {
    /// Starts a pass over what the journal offers. An empty batch starts over next time.
    pub fn start(candidates: Vec<Candidate>) -> (started: (Self, Action))
        ensures
            started.0@.candidates == candidates@,
            sound(started.0@),
            candidates@.len() == 0 ==> started.0@.cursor is None && started.0@.stage == Stage::Over
                && started.1 == Action::Finish(Ok(false)),
            candidates@.len() > 0 ==> started.0@.at == 0 && started.0@.stage == Stage::Merging
                && started.1 == Action::Merge(candidates@[0].id),
    {
        if candidates.len() == 0 {
            return (
                Maintenance { candidates, at: 0, stage: Stage::Over, target: None, cursor: None },
                Action::Finish(Ok(false)),
            );
        }
        let id: Id = candidates[0].id;
        (
            Maintenance {
                candidates,
                at: 0,
                stage: Stage::Merging,
                target: None,
                cursor: Some(id),
            },
            Action::Merge(id),
        )
    }

    /// Goes on to the next candidate.
    fn turn(&mut self) -> (action: Action)
        requires
            0 <= old(self)@.at < old(self)@.candidates.len(),
        ensures
            (final(self)@, action) == turned(old(self)@, old(self)@.at + 1),
    {
        let total: usize = self.candidates.len();
        if self.at < total - 1 {
            let next: usize = self.at + 1;
            let id: Id = self.candidates[next].id;
            self.at = next;
            self.stage = Stage::Merging;
            self.cursor = Some(id);
            Action::Merge(id)
        } else {
            self.stage = Stage::Over;
            Action::Finish(Ok(false))
        }
    }

    /// Ends the pass.
    fn end(&mut self, answer: Result<bool, WriteError>) -> (action: Action)
        ensures
            (final(self)@, action) == ended(old(self)@, answer),
    {
        self.stage = Stage::Over;
        Action::Finish(answer)
    }

    /// Sets the target of the current candidate.
    fn aim(&mut self, id: Id, target: Node, retries: &mut Retries) -> (action: Action)
        requires
            0 <= old(self)@.at < old(self)@.candidates.len(),
            id == old(self)@.candidates[old(self)@.at].id,
        ensures
            (final(self)@, action) == targeted(old(self)@, target),
            final(retries).table@ == old(retries).table@.remove(id),
    {
        retries.clear(id);
        self.target = Some(target);
        self.stage = Stage::Claiming;
        Action::Claim(id)
    }

    /// Takes in what became of the last action and says what to do next.
    pub fn step(&mut self, retries: &mut Retries, now: u64, event: Event) -> (action: Action)
        requires
            sound(old(self)@),
            fits(old(self)@.stage, event),
            now <= u64::MAX - 60,
        ensures
            ({
                let id = old(self)@.candidates[old(self)@.at].id;
                let waits = old(retries).table@.contains_key(id) && old(retries).table@[id].at
                    > now;
                (final(self)@, action) == stepped(old(self)@, waits, event)
            }),
            final(retries).table@ == spaced(old(self)@, event, old(retries).table@, now),
            sound(final(self)@),
    {
        let at: usize = self.at;
        let id: Id = self.candidates[at].id;
        match event {
            Event::Merged(Ok(_)) => {
                if self.candidates[at].clean && !retries.waits(id, now) {
                    self.stage = Stage::Probing;
                    return Action::Probe(id);
                }
                self.turn()
            },
            Event::Merged(Err(error)) => self.end(Err(error)),
            Event::Idle(idle) => {
                if self.stage == Stage::Claiming {
                    if !idle {
                        return self.end(Ok(true));
                    }
                    self.stage = Stage::Detaching;
                    return Action::Detach(id);
                }
                if !idle {
                    return self.turn();
                }
                if self.candidates[at].remote.is_none() {
                    return self.end(Err(WriteError::Failure));
                }
                self.stage = Stage::Looking;
                Action::Look(id)
            },
            Event::Cached(Err(error)) => self.end(Err(error)),
            Event::Cached(Ok(cached)) => {
                let expected: Node = match &self.candidates[at].remote {
                    Some(node) => node.clone(),
                    None => {
                        return self.end(Err(WriteError::Failure));
                    },
                };
                if is_cached(&expected, &cached) {
                    return self.aim(id, expected, retries);
                }
                self.stage = Stage::Asking;
                Action::Ask(id)
            },
            Event::Cancelled => self.end(Ok(false)),
            Event::Replied(reply) => {
                let expected: Node = match &self.candidates[at].remote {
                    Some(node) => node.clone(),
                    None => {
                        return self.end(Err(WriteError::Failure));
                    },
                };
                match handoff_reply(expected, reply) {
                    Ok(node) => self.aim(id, node, retries),
                    Err(error) => {
                        retries.fail(id, now);
                        self.end(Err(error))
                    },
                }
            },
            Event::Detached(result) => self.end(handoff_outcome(result)),
        }
    }
}

/// A pass asks the provider at most once: behind a request it only claims, detaches or
/// ends.
pub proof fn one_request_per_pass(pass: Pass, waits: bool, event: Event)
    requires
        sound(pass),
        fits(pass.stage, event),
        pass.stage == Stage::Asking || pass.stage == Stage::Claiming || pass.stage
            == Stage::Detaching,
    ensures
        ({
            let next = stepped(pass, waits, event);
            &&& next.1 is Claim || next.1 is Detach || next.1 is Finish
            &&& next.0.stage == Stage::Claiming || next.0.stage == Stage::Detaching
                || next.0.stage == Stage::Over
        }),
{
}

/// An object is detached only when nobody uses it at that very step.
pub proof fn detaching_needs_exclusive_use(pass: Pass, waits: bool, event: Event)
    requires
        sound(pass),
        fits(pass.stage, event),
        stepped(pass, waits, event).1 is Detach,
    ensures
        event == Event::Idle(true),
        pass.candidates[pass.at].id == stepped(pass, waits, event).1->Detach_0,
        pass.target is Some,
{
}

/// How much of a pass is left at most.
pub open spec fn remaining(pass: Pass) -> int {
    match pass.stage {
        Stage::Merging => 6 * (pass.candidates.len() - pass.at),
        Stage::Probing => 6 * (pass.candidates.len() - pass.at) - 1,
        Stage::Looking => 6 * (pass.candidates.len() - pass.at) - 2,
        Stage::Asking => 6 * (pass.candidates.len() - pass.at) - 3,
        Stage::Claiming => 6 * (pass.candidates.len() - pass.at) - 4,
        Stage::Detaching => 6 * (pass.candidates.len() - pass.at) - 5,
        Stage::Over => 0,
    }
}

/// Every step brings a pass nearer to its end.
pub proof fn passes_end(pass: Pass, waits: bool, event: Event)
    requires
        sound(pass),
        fits(pass.stage, event),
    ensures
        0 <= remaining(stepped(pass, waits, event).0) < remaining(pass),
        stepped(pass, waits, event).1 is Finish <==> stepped(pass, waits, event).0.stage
            == Stage::Over,
{
}

/// Another candidate is left behind the current one, and the pass goes on to it.
pub open spec fn goes_on(pass: Pass, next: (Pass, Action)) -> bool {
    if pass.at + 1 < pass.candidates.len() {
        &&& next.1 == Action::Merge(pass.candidates[pass.at + 1].id)
        &&& next.0.at == pass.at + 1
        &&& next.0.stage == Stage::Merging
        &&& next.0.cursor == Some(pass.candidates[pass.at + 1].id)
    } else {
        &&& next.1 == Action::Finish(Ok(false))
        &&& next.0.cursor == pass.cursor
    }
}

/// An object is skipped where some of it is not acknowledged, where it failed a moment
/// ago or where somebody uses it, and nothing else is skipped: an idle and clean one is
/// looked at.
pub proof fn busy_objects_are_skipped(pass: Pass, waits: bool)
    requires
        sound(pass),
    ensures
        ({
            let candidate = pass.candidates[pass.at];
            let next = stepped(pass, waits, Event::Merged(Ok(())));
            pass.stage == Stage::Merging ==> {
                &&& candidate.clean && !waits ==> next.1 == Action::Probe(candidate.id)
                    && next.0.at == pass.at && next.0.stage == Stage::Probing
                &&& !candidate.clean || waits ==> goes_on(pass, next)
            }
        }),
        ({
            let candidate = pass.candidates[pass.at];
            pass.stage == Stage::Probing ==> {
                &&& goes_on(pass, stepped(pass, waits, Event::Idle(false)))
                &&& candidate.remote is Some ==> stepped(pass, waits, Event::Idle(true)).1
                    == Action::Look(candidate.id)
                &&& candidate.remote is None ==> stepped(pass, waits, Event::Idle(true)).1
                    == Action::Finish(Err(WriteError::Failure))
            }
        }),
        forall|error: WriteError|
            pass.stage == Stage::Merging ==> #[trigger] stepped(
                pass,
                waits,
                Event::Merged(Err(error)),
            ).1 == Action::Finish(Err(error)),
{
}

/// The provider is asked about exactly those objects whose cached metadata is not what was
/// acknowledged. What is handed off is the acknowledged metadata where the cache has it, and
/// else the provider's own.
pub proof fn stale_metadata_is_asked_for(pass: Pass, waits: bool, cached: Option<Node>)
    requires
        sound(pass),
        pass.stage == Stage::Looking,
    ensures
        ({
            let candidate = pass.candidates[pass.at];
            let next = stepped(pass, waits, Event::Cached(Ok(cached)));
            &&& cached is Some && cached->0@ == candidate.remote->0@ ==> {
                &&& next.1 == Action::Claim(candidate.id)
                &&& next.0.target == candidate.remote
            }
            &&& cached is None || cached->0@ != candidate.remote->0@ ==> {
                &&& next.1 == Action::Ask(candidate.id)
                &&& next.0.stage == Stage::Asking
                &&& next.0.at == pass.at
            }
        }),
        forall|error: WriteError| #[trigger]
            stepped(pass, waits, Event::Cached(Err(error))).1 == Action::Finish(Err(error)),
{
}

/// A claimed object is detached and nothing else. The pass reports progress where an object
/// was detached, where it was taken back into use, and where it changed meanwhile; every
/// other failure is reported.
pub proof fn claimed_objects_are_detached(pass: Pass, waits: bool, error: WriteError)
    requires
        sound(pass),
    ensures
        pass.stage == Stage::Claiming ==> {
            &&& stepped(pass, waits, Event::Idle(true)).1 == Action::Detach(
                pass.candidates[pass.at].id,
            )
            &&& stepped(pass, waits, Event::Idle(true)).0.target == pass.target
            &&& stepped(pass, waits, Event::Idle(false)).1 == Action::Finish(Ok(true))
        },
        pass.stage == Stage::Detaching ==> {
            &&& stepped(pass, waits, Event::Detached(Ok(()))).1 == Action::Finish(Ok(true))
            &&& error == WriteError::Stale ==> stepped(
                pass,
                waits,
                Event::Detached(Err(error)),
            ).1 == Action::Finish(Ok(true))
            &&& error != WriteError::Stale ==> stepped(
                pass,
                waits,
                Event::Detached(Err(error)),
            ).1 == Action::Finish(Err(error))
        },
        pass.stage == Stage::Asking ==> stepped(pass, waits, Event::Cancelled).1 == Action::Finish(
            Ok(false),
        ),
{
}

/// Only an answer of the provider that cannot be used makes an object wait, and metadata in
/// hand ends its waiting. No other object is touched.
pub proof fn failed_requests_wait(
    pass: Pass,
    event: Event,
    retries: Map<Id, Retry>,
    now: u64,
    other: Id,
)
    requires
        sound(pass),
        fits(pass.stage, event),
        now <= u64::MAX - 60,
    ensures
        ({
            let id = pass.candidates[pass.at].id;
            let after = spaced(pass, event, retries, now);
            let action = stepped(pass, false, event).1;
            &&& other != id ==> after.contains_key(other) == retries.contains_key(other)
                && (after.contains_key(other) ==> after[other] == retries[other])
            &&& event is Replied && action is Finish ==> after.contains_key(id) && after[id].at
                > now
            &&& action is Claim ==> !after.contains_key(id)
            &&& !(event is Replied) && !(action is Claim) ==> after == retries
        }),
{
    failures_double_the_wait(retries, pass.candidates[pass.at].id, now, other);
}

} // verus!
