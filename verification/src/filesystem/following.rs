//! Following committed metadata: when the whole index of views is swept, when single
//! changes are told to the kernel, and how far a mount has followed.
use vstd::prelude::*;

verus! {

/// Where a follower stands.
#[derive(Debug)]
pub enum FollowStage<P> {
    /// Something may have been committed.
    Waiting,
    /// The position of the stream is being read, for a sweep that was asked for by a count.
    Positioning { asked: u64 },
    /// The whole index is being swept, from a position on.
    Sweeping { asked: u64, next: P },
    /// The next committed changes are being read.
    Reading,
    /// A change of a page is being told.
    Applying { at: usize, count: usize, next: P, complete: bool },
    /// Something failed a moment ago.
    Resting,
    Stopped,
}

/// What has happened.
#[derive(Debug)]
pub enum FollowEvent<P> {
    /// The mount is being taken away.
    Cancelled,
    /// Full sweeps asked for so far; nothing where no more will be asked.
    Woken(Option<u64>),
    /// The position of the stream, where it could be read.
    Positioned(Option<P>),
    /// Whether every view that is concerned was told.
    Told(bool),
    /// How many changes a page has, the position behind it, and whether it is the last;
    /// nothing where it could not be read.
    Page(Option<(usize, P, bool)>),
    Rested,
}

/// What is done next.
#[derive(Debug, Clone, Copy, PartialEq, Eq, Structural)]
pub enum FollowAction {
    /// Wait for a commit.
    Wait,
    /// Go on without waiting.
    Poll,
    /// Read the position of the stream.
    TakePosition,
    /// Tell the kernel of every view.
    Sweep,
    /// Read the changes behind the position.
    ReadChanges,
    /// Tell the kernel of the views that one change of the page concerns.
    Tell(usize),
    /// Rest for a second.
    Rest,
    Stop,
}

/// Tells the kernel of what was committed. The position is what it has followed to.
#[derive(Debug)]
pub struct Follower<P> {
    pub position: Option<P>,
    /// The full sweeps that it has made good.
    pub seen: u64,
    /// Whether local names can hide provider identities.
    pub writable: bool,
    pub stage: FollowStage<P>,
}

/// The event says that something failed.
pub open spec fn is_failure<P>(event: FollowEvent<P>) -> bool {
    match event {
        FollowEvent::Told(done) => !done,
        FollowEvent::Positioned(next) => next is None,
        FollowEvent::Page(page) => page is None,
        _ => false,
    }
}

/// The event can come at this stage.
pub open spec fn follow_fits<P>(stage: FollowStage<P>, event: FollowEvent<P>) -> bool {
    match event {
        FollowEvent::Cancelled => true,
        FollowEvent::Woken(_) => stage is Waiting,
        FollowEvent::Positioned(_) => stage is Positioning,
        FollowEvent::Told(_) => stage is Sweeping || stage is Applying,
        FollowEvent::Page(_) => stage is Reading,
        FollowEvent::Rested => stage is Resting,
    }
}

impl<P> Follower<P> {
    /// A change that is being told belongs to its page.
    pub open spec fn wf(&self) -> bool {
        match self.stage {
            FollowStage::Applying { at, count, .. } => at < count,
            _ => true,
        }
    }

    /// The follower at another stage.
    pub open spec fn at_stage(self, stage: FollowStage<P>) -> Self {
        Follower { stage, ..self }
    }

    /// The follower forgets how far it was: what it missed is made good by a sweep.
    pub open spec fn failed(self) -> (Self, FollowAction) {
        (Follower { position: None, stage: FollowStage::Resting, ..self }, FollowAction::Rest)
    }

    /// Some changes of a page have been told.
    pub open spec fn told(self, at: int, count: usize, next: P, complete: bool) -> (
        Self,
        FollowAction,
    ) {
        if at < count {
            (
                self.at_stage(FollowStage::Applying { at: at as usize, count, next, complete }),
                FollowAction::Tell(at as usize),
            )
        } else if complete {
            (
                Follower { position: Some(next), stage: FollowStage::Waiting, ..self },
                FollowAction::Wait,
            )
        } else {
            (
                Follower { position: Some(next), stage: FollowStage::Reading, ..self },
                FollowAction::ReadChanges,
            )
        }
    }

    /// What an event leads to.
    pub open spec fn followed(self, event: FollowEvent<P>) -> (Self, FollowAction) {
        match event {
            FollowEvent::Cancelled => (self.at_stage(FollowStage::Stopped), FollowAction::Stop),
            FollowEvent::Woken(None) => (self.at_stage(FollowStage::Stopped), FollowAction::Stop),
            FollowEvent::Woken(Some(asked)) => if self.position is None || asked != self.seen
                || self.writable {
                (self.at_stage(FollowStage::Positioning { asked }), FollowAction::TakePosition)
            } else {
                (self.at_stage(FollowStage::Reading), FollowAction::ReadChanges)
            },
            FollowEvent::Positioned(None) => self.failed(),
            FollowEvent::Positioned(Some(next)) => match self.stage {
                FollowStage::Positioning { asked } => (
                    self.at_stage(FollowStage::Sweeping { asked, next }),
                    FollowAction::Sweep,
                ),
                _ => self.failed(),
            },
            FollowEvent::Told(false) => self.failed(),
            FollowEvent::Told(true) => match self.stage {
                FollowStage::Sweeping { asked, next } => (
                    Follower {
                        position: Some(next),
                        seen: asked,
                        stage: FollowStage::Waiting,
                        ..self
                    },
                    FollowAction::Wait,
                ),
                FollowStage::Applying { at, count, next, complete } => self.told(
                    at + 1,
                    count,
                    next,
                    complete,
                ),
                _ => self.failed(),
            },
            FollowEvent::Page(None) => self.failed(),
            FollowEvent::Page(Some((count, next, complete))) => self.told(0, count, next, complete),
            FollowEvent::Rested => (self.at_stage(FollowStage::Waiting), FollowAction::Poll),
        }
    }

    /// A follower of a mount that has told nothing yet.
    pub fn start(seen: u64, writable: bool) -> (started: (Self, FollowAction))
        ensures
            started.0 == (Follower::<P> {
                position: None,
                seen,
                writable,
                stage: FollowStage::Waiting,
            }),
            started.0.wf(),
            started.1 == FollowAction::Poll,
    {
        (
            Follower { position: None, seen, writable, stage: FollowStage::Waiting },
            FollowAction::Poll,
        )
    }

    fn fail(self) -> (next: (Self, FollowAction))
        ensures
            next == self.failed(),
    {
        (
            Follower {
                position: None,
                seen: self.seen,
                writable: self.writable,
                stage: FollowStage::Resting,
            },
            FollowAction::Rest,
        )
    }

    fn go_on(self, at: usize, count: usize, next: P, complete: bool) -> (step: (Self, FollowAction))
        ensures
            step == self.told(at as int, count, next, complete),
            step.0.wf(),
    {
        if at < count {
            return (
                Follower { stage: FollowStage::Applying { at, count, next, complete }, ..self },
                FollowAction::Tell(at),
            );
        }
        if complete {
            return (
                Follower { position: Some(next), stage: FollowStage::Waiting, ..self },
                FollowAction::Wait,
            );
        }
        (
            Follower { position: Some(next), stage: FollowStage::Reading, ..self },
            FollowAction::ReadChanges,
        )
    }

    /// Takes an event in.
    pub fn step(self, event: FollowEvent<P>) -> (step: (Self, FollowAction))
        requires
            self.wf(),
            follow_fits(self.stage, event),
        ensures
            step == self.followed(event),
            step.0.wf(),
    {
        let Follower { position, seen, writable, stage } = self;
        match event {
            FollowEvent::Cancelled | FollowEvent::Woken(None) => (
                Follower { position, seen, writable, stage: FollowStage::Stopped },
                FollowAction::Stop,
            ),
            FollowEvent::Woken(Some(asked)) => {
                if position.is_none() || asked != seen || writable {
                    return (
                        Follower {
                            position,
                            seen,
                            writable,
                            stage: FollowStage::Positioning { asked },
                        },
                        FollowAction::TakePosition,
                    );
                }
                (
                    Follower { position, seen, writable, stage: FollowStage::Reading },
                    FollowAction::ReadChanges,
                )
            },
            FollowEvent::Positioned(Some(next)) => match stage {
                FollowStage::Positioning { asked } => (
                    Follower {
                        position,
                        seen,
                        writable,
                        stage: FollowStage::Sweeping { asked, next },
                    },
                    FollowAction::Sweep,
                ),
                stage => (Follower { position, seen, writable, stage }).fail(),
            },
            FollowEvent::Told(true) => match stage {
                FollowStage::Sweeping { asked, next } => (
                    Follower {
                        position: Some(next),
                        seen: asked,
                        writable,
                        stage: FollowStage::Waiting,
                    },
                    FollowAction::Wait,
                ),
                FollowStage::Applying { at, count, next, complete } => (Follower {
                    position,
                    seen,
                    writable,
                    stage: FollowStage::Waiting,
                }).go_on(at + 1, count, next, complete),
                stage => (Follower { position, seen, writable, stage }).fail(),
            },
            FollowEvent::Page(Some((count, next, complete))) => (Follower {
                position,
                seen,
                writable,
                stage,
            }).go_on(0, count, next, complete),
            FollowEvent::Rested => (
                Follower { position, seen, writable, stage: FollowStage::Waiting },
                FollowAction::Poll,
            ),
            FollowEvent::Positioned(None)
            | FollowEvent::Told(false)
            | FollowEvent::Page(None) => (Follower { position, seen, writable, stage }).fail(),
        }
    }
}

/// A follower has followed to a position only when everything before it was told: the
/// position becomes another one with the last view of a sweep, with the last change of a
/// page, or with a page that has no changes.
pub proof fn positions_follow_what_was_told<P>(follower: Follower<P>, event: FollowEvent<P>)
    requires
        follower.wf(),
        follow_fits(follower.stage, event),
        follower.followed(event).0.position is Some,
        follower.followed(event).0.position != follower.position,
    ensures
        match event {
            FollowEvent::Told(done) => done && match follower.stage {
                FollowStage::Sweeping { next, .. } => follower.followed(event).0.position == Some(
                    next,
                ),
                FollowStage::Applying { at, count, next, .. } => at + 1 == count
                    && follower.followed(event).0.position == Some(next),
                _ => false,
            },
            FollowEvent::Page(Some((count, next, _))) => count == 0 && follower.followed(
                event,
            ).0.position == Some(next),
            _ => false,
        },
{
}

/// No commit is lost to a failure: after one, whatever is asked for next, the position is
/// taken anew and the whole index is swept from there on.
pub proof fn failures_are_made_good_by_a_sweep<P>(
    follower: Follower<P>,
    event: FollowEvent<P>,
    asked: u64,
)
    requires
        follower.wf(),
        follow_fits(follower.stage, event),
        is_failure(event),
    ensures
        ({
            let (rested, rest) = follower.followed(event);
            let (woken, poll) = rested.followed(FollowEvent::Rested);
            &&& rest == FollowAction::Rest
            &&& poll == FollowAction::Poll
            &&& woken.followed(FollowEvent::Woken(Some(asked))).1 == FollowAction::TakePosition
        }),
{
}

/// A position is taken before the sweep that makes it good, so that what is committed
/// meanwhile comes behind it.
pub proof fn positions_are_taken_before_the_sweep<P>(
    follower: Follower<P>,
    asked: u64,
    next: P,
)
    requires
        follower.stage is Waiting,
        follower.position is None || asked != follower.seen || follower.writable,
    ensures
        ({
            let (positioning, take) = follower.followed(FollowEvent::Woken(Some(asked)));
            let (sweeping, sweep) = positioning.followed(FollowEvent::Positioned(Some(next)));
            let (done, wait) = sweeping.followed(FollowEvent::Told(true));
            &&& take == FollowAction::TakePosition
            &&& sweep == FollowAction::Sweep
            &&& sweeping.position == follower.position
            &&& done.position == Some(next)
            &&& done.seen == asked
            &&& wait == FollowAction::Wait
        }),
{
}

/// Where the kernel drops the content of an inode from: a directory from its start; the
/// content of a file is kept, for each version has an inode of its own.
pub fn dropped_from(directory: bool) -> (offset: i64)
    ensures
        offset == (if directory {
            0int
        } else {
            -1int
        }),
{
    if directory {
        0
    } else {
        -1
    }
}

/// What has been told so far.
#[derive(Debug, Clone, Copy, PartialEq, Eq, Structural)]
pub struct InvalidationMetrics {
    pub batches: u64,
    pub entries: u64,
    pub marks: u64,
    pub max_batch: u64,
}

impl InvalidationMetrics {
    /// Nothing.
    pub fn new() -> (metrics: Self)
        ensures
            metrics == (InvalidationMetrics { batches: 0, entries: 0, marks: 0, max_batch: 0 }),
    {
        InvalidationMetrics { batches: 0, entries: 0, marks: 0, max_batch: 0 }
    }

    /// Counts a batch of this many views. The counters turn over.
    pub fn count_batch(&mut self, count: u64)
        ensures
            *final(self) == (InvalidationMetrics {
                batches: old(self).batches.wrapping_add(1),
                entries: old(self).entries.wrapping_add(count),
                marks: old(self).marks,
                max_batch: if count > old(self).max_batch {
                    count
                } else {
                    old(self).max_batch
                },
            }),
    {
        self.batches = self.batches.wrapping_add(1);
        self.entries = self.entries.wrapping_add(count);
        if count > self.max_batch {
            self.max_batch = count;
        }
    }

    /// Counts the changes of a page.
    pub fn count_marks(&mut self, count: u64)
        ensures
            *final(self) == (InvalidationMetrics {
                marks: old(self).marks.wrapping_add(count),
                ..*old(self)
            }),
    {
        self.marks = self.marks.wrapping_add(count);
    }
}

/// A follower that knows where it is reads the changes behind its position, unless a sweep
/// was asked for since or local names can hide what changed. It tells every change of a page
/// in order, and goes on with the next page until the last.
pub proof fn changes_are_told_in_order<P>(
    follower: Follower<P>,
    asked: u64,
    at: usize,
    count: usize,
    next: P,
    complete: bool,
)
    requires
        at < count,
    ensures
        follower.position is Some && asked == follower.seen && !follower.writable
            ==> follower.followed(FollowEvent::Woken(Some(asked))).1 == FollowAction::ReadChanges
            && follower.followed(FollowEvent::Woken(Some(asked))).0.stage is Reading,
        follower.followed(FollowEvent::Page(Some((count, next, complete)))).1
            == FollowAction::Tell(0),
        follower.followed(FollowEvent::Page(Some((count, next, complete)))).0.position
            == follower.position,
        follower.followed(FollowEvent::Page(Some((0, next, complete)))).1 == (if complete {
            FollowAction::Wait
        } else {
            FollowAction::ReadChanges
        }),
        follower.stage == (FollowStage::Applying { at, count, next, complete }) ==> {
            let (after, action) = follower.followed(FollowEvent::Told(true));
            &&& at + 1 < count ==> action == FollowAction::Tell((at + 1) as usize)
                && after.position == follower.position
            &&& at + 1 == count ==> after.position == Some(next) && action == (if complete {
                FollowAction::Wait
            } else {
                FollowAction::ReadChanges
            })
            &&& after.seen == follower.seen
        },
        follower.followed(FollowEvent::Cancelled).1 == FollowAction::Stop,
        follower.followed(FollowEvent::Woken(None)).1 == FollowAction::Stop,
        follower.followed(FollowEvent::Rested).1 == FollowAction::Poll,
{
}

} // verus!
