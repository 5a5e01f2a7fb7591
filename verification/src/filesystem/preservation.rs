//! One pass over removed files whose readers still depend on the provider. The removal
//! of a file reaches the provider only after its readers have local bytes or are gone.
use crate::filesystem::projection::WriteError;
use crate::filesystem::writeback::{check_reader, failing, failures_double_the_wait, Retries, Retry};
use crate::model::{content_revision, Id, Node};
use vstd::prelude::*;

verus! {

/// A removal that waits for readers.
#[derive(Clone, Copy, Debug, PartialEq, Eq, Structural)]
pub struct Removal {
    pub sequence: u64,
    pub operation: Id,
}

/// What is shown of a removed file: its object, whether it has local bytes, and its
/// remote item.
#[derive(Debug)]
pub struct Removed {
    pub object: Id,
    pub streamed: bool,
    pub remote: Option<Node>,
}

/// Where a pass stands with its current removal.
#[derive(Clone, Copy, Debug, PartialEq, Eq, Structural)]
pub enum PreserveStage {
    /// The removed file is being looked up.
    Loading,
    /// Its users are being listed.
    Listing,
    /// Its bytes are being fetched.
    Fetching,
    /// Its users are being listed once more.
    Rechecking,
    /// Reads from the provider are running out.
    Waiting,
    /// The removal is being released.
    Releasing,
    /// The pass is over.
    Over,
}

/// What became of the last action.
#[derive(Debug)]
pub enum PreserveEvent {
    /// What is shown of the removed file.
    Loaded(Result<Removed, WriteError>),
    /// What its users read.
    Readers(Vec<Node>),
    /// Its bytes are local, or could not be fetched.
    Fetched(Result<(), WriteError>),
    /// Whether it still has users, and whether it has local bytes now.
    Rechecked { used: bool, streamed: bool },
    /// Every read from the provider has ended, or waiting for them failed.
    Waited(Result<(), WriteError>),
    /// The removal is released, or could not be.
    Released(Result<(), WriteError>),
}

/// What to do next.
#[derive(Clone, Copy, Debug, PartialEq, Eq)]
pub enum PreserveAction {
    /// Look up the file of this removal.
    Load(Id),
    /// List the users of this object.
    List(Id),
    /// Fetch the bytes of this object.
    Fetch(Id),
    /// List the users of this object once more, keeping new ones out meanwhile.
    Recheck(Id),
    /// Let no read start from the provider, and wait for those that run.
    Wait(Id),
    /// Release this removal.
    Release(Id),
    /// The pass is over; the answer says whether something was done.
    Finish(Result<bool, WriteError>),
}

/// One pass over a batch of removals.
#[derive(Debug)]
pub struct Preservation {
    pub removals: Vec<Removal>,
    pub at: usize,
    pub stage: PreserveStage,
    /// The removed file that the pass is at.
    pub removed: Option<Removed>,
    /// The place in the queue behind which the next pass goes on.
    pub cursor: u64,
}

/// What is known of a pass.
pub struct PreservePass {
    pub removals: Seq<Removal>,
    pub at: int,
    pub stage: PreserveStage,
    pub removed: Option<Removed>,
    pub cursor: u64,
}

impl View for Preservation {
    type V = PreservePass;

    open spec fn view(&self) -> PreservePass {
        PreservePass {
            removals: self.removals@,
            at: self.at as int,
            stage: self.stage,
            removed: self.removed,
            cursor: self.cursor,
        }
    }
}

/// A pass that is not over has a current removal, behind which the next one goes on.
pub open spec fn preserve_sound(pass: PreservePass) -> bool {
    pass.stage == PreserveStage::Over || {
        &&& 0 <= pass.at < pass.removals.len()
        &&& pass.cursor == pass.removals[pass.at].sequence
        &&& pass.stage != PreserveStage::Loading ==> pass.removed is Some
    }
}

/// The event is an outcome of what was being done.
pub open spec fn preserve_fits(stage: PreserveStage, event: PreserveEvent) -> bool {
    match stage {
        PreserveStage::Loading => event is Loaded,
        PreserveStage::Listing => event is Readers,
        PreserveStage::Fetching => event is Fetched,
        PreserveStage::Rechecking => event is Rechecked,
        PreserveStage::Waiting => event is Waited,
        PreserveStage::Releasing => event is Released,
        PreserveStage::Over => false,
    }
}

/// A reader has the bytes that the provider has.
pub open spec fn reads_remote(reader: Node, remote: Node) -> bool {
    reader.size == remote.size && content_revision(reader@) == content_revision(remote@)
}

/// Every reader has the bytes that the provider has.
pub open spec fn all_read_remote(readers: Seq<Node>, remote: Node) -> bool {
    forall|i: int| 0 <= i < readers.len() ==> reads_remote(#[trigger] readers[i], remote)
}

/// A pass that ends with an answer.
pub open spec fn preserve_ended(pass: PreservePass, answer: Result<bool, WriteError>) -> (
    PreservePass,
    PreserveAction,
) {
    (PreservePass { stage: PreserveStage::Over, ..pass }, PreserveAction::Finish(answer))
}

/// A pass at another stage of its current removal.
pub open spec fn preserve_at(pass: PreservePass, stage: PreserveStage, action: PreserveAction) -> (
    PreservePass,
    PreserveAction,
) {
    (PreservePass { stage, ..pass }, action)
}

/// The next state of a pass and what to do. `waits` says that the loaded object failed a
/// moment ago.
pub open spec fn preserve_stepped(pass: PreservePass, waits: bool, event: PreserveEvent) -> (
    PreservePass,
    PreserveAction,
) {
    let removed = pass.removed->0;
    match (pass.stage, event) {
        (PreserveStage::Loading, PreserveEvent::Loaded(Err(error))) => preserve_ended(
            pass,
            Err(error),
        ),
        (PreserveStage::Loading, PreserveEvent::Loaded(Ok(found))) => {
            let known = PreservePass { removed: Some(found), ..pass };
            if !waits {
                preserve_at(known, PreserveStage::Listing, PreserveAction::List(found.object))
            } else if pass.at + 1 < pass.removals.len() {
                let next = pass.removals[pass.at + 1];
                (
                    PreservePass {
                        at: pass.at + 1,
                        stage: PreserveStage::Loading,
                        cursor: next.sequence,
                        ..known
                    },
                    PreserveAction::Load(next.operation),
                )
            } else {
                preserve_ended(known, Ok(false))
            }
        },
        (PreserveStage::Listing, PreserveEvent::Readers(readers)) => if readers@.len() == 0
            || removed.streamed {
            preserve_at(
                pass,
                PreserveStage::Rechecking,
                PreserveAction::Recheck(removed.object),
            )
        } else if removed.remote is None {
            preserve_ended(pass, Err(WriteError::Failure))
        } else if !all_read_remote(readers@, removed.remote->0) {
            preserve_ended(pass, Err(WriteError::Stale))
        } else {
            preserve_at(pass, PreserveStage::Fetching, PreserveAction::Fetch(removed.object))
        },
        (PreserveStage::Fetching, PreserveEvent::Fetched(Ok(_))) => preserve_at(
            pass,
            PreserveStage::Rechecking,
            PreserveAction::Recheck(removed.object),
        ),
        (PreserveStage::Fetching, PreserveEvent::Fetched(Err(error))) => preserve_ended(
            pass,
            Err(error),
        ),
        (PreserveStage::Rechecking, PreserveEvent::Rechecked { used, streamed }) => if used
            && !streamed {
            preserve_ended(pass, Err(WriteError::Again))
        } else {
            preserve_at(pass, PreserveStage::Waiting, PreserveAction::Wait(removed.object))
        },
        (PreserveStage::Waiting, PreserveEvent::Waited(Ok(_))) => preserve_at(
            pass,
            PreserveStage::Releasing,
            PreserveAction::Release(pass.removals[pass.at].operation),
        ),
        (PreserveStage::Waiting, PreserveEvent::Waited(Err(error))) => preserve_ended(
            pass,
            Err(error),
        ),
        (PreserveStage::Releasing, PreserveEvent::Released(Ok(_))) => preserve_ended(
            pass,
            Ok(true),
        ),
        (PreserveStage::Releasing, PreserveEvent::Released(Err(error))) => preserve_ended(
            pass,
            Err(error),
        ),
        _ => (pass, PreserveAction::Finish(Err(WriteError::Failure))),
    }
}

/// When each object is tried again, after a step: what fails after the file was looked
/// up spaces out the next try, and a release forgets earlier failures.
pub open spec fn preserve_spaced(
    pass: PreservePass,
    event: PreserveEvent,
    retries: Map<Id, Retry>,
    now: u64,
) -> Map<Id, Retry> {
    let answer = preserve_stepped(pass, false, event).1;
    if pass.stage == PreserveStage::Loading {
        retries
    } else if answer == PreserveAction::Finish(Ok(true)) {
        retries.remove(pass.removed->0.object)
    } else if answer is Finish {
        failing(retries, pass.removed->0.object, now)
    } else {
        retries
    }
}

/// Whether every reader has the bytes that the provider has.
fn check_readers(readers: &Vec<Node>, remote: &Node) -> (result: Result<(), WriteError>)
    ensures
        result == (if all_read_remote(readers@, *remote) {
            Ok::<(), WriteError>(())
        } else {
            Err(WriteError::Stale)
        }),
{
    let mut i: usize = 0;
    while i < readers.len()
        invariant
            i <= readers@.len(),
            forall|j: int| 0 <= j < i ==> reads_remote(#[trigger] readers@[j], *remote),
        decreases readers@.len() - i,
    {
        if let Err(error) = check_reader(&readers[i], remote) {
            proof {
                assert(!reads_remote(readers@[i as int], *remote));
            }
            return Err(error);
        }
        i = i + 1;
    }
    Ok(())
}

impl Preservation {
    /// Starts a pass over the removals that wait. An empty batch starts over next time.
    pub fn start(removals: Vec<Removal>) -> (started: (Self, PreserveAction))
        ensures
            started.0@.removals == removals@,
            preserve_sound(started.0@),
            removals@.len() == 0 ==> started.0@.cursor == 0 && started.0@.stage
                == PreserveStage::Over && started.1 == PreserveAction::Finish(Ok(false)),
            removals@.len() > 0 ==> started.0@.at == 0 && started.0@.stage
                == PreserveStage::Loading && started.1 == PreserveAction::Load(
                removals@[0].operation,
            ),
    {
        if removals.len() == 0 {
            return (
                Preservation {
                    removals,
                    at: 0,
                    stage: PreserveStage::Over,
                    removed: None,
                    cursor: 0,
                },
                PreserveAction::Finish(Ok(false)),
            );
        }
        let first: Removal = removals[0];
        (
            Preservation {
                removals,
                at: 0,
                stage: PreserveStage::Loading,
                removed: None,
                cursor: first.sequence,
            },
            PreserveAction::Load(first.operation),
        )
    }

    /// Ends the pass with a failure of its object.
    fn fail(&mut self, object: Id, retries: &mut Retries, now: u64, error: WriteError) -> (action:
        PreserveAction)
        requires
            now <= u64::MAX - 60,
        ensures
            (final(self)@, action) == preserve_ended(old(self)@, Err(error)),
            final(retries).table@ == failing(old(retries).table@, object, now),
    {
        retries.fail(object, now);
        self.stage = PreserveStage::Over;
        PreserveAction::Finish(Err(error))
    }

    /// Takes in what is shown of a removed file.
    fn load(&mut self, retries: &Retries, now: u64, found: Removed) -> (action: PreserveAction)
        requires
            preserve_sound(old(self)@),
            old(self)@.stage == PreserveStage::Loading,
        ensures
            ({
                let waits = retries.table@.contains_key(found.object)
                    && retries.table@[found.object].at > now;
                (final(self)@, action) == preserve_stepped(
                    old(self)@,
                    waits,
                    PreserveEvent::Loaded(Ok(found)),
                )
            }),
            preserve_sound(final(self)@),
    {
        let object: Id = found.object;
        let total: usize = self.removals.len();
        self.removed = Some(found);
        if !retries.waits(object, now) {
            self.stage = PreserveStage::Listing;
            return PreserveAction::List(object);
        }
        if self.at < total - 1 {
            self.at = self.at + 1;
            let next: Removal = self.removals[self.at];
            self.cursor = next.sequence;
            return PreserveAction::Load(next.operation);
        }
        self.stage = PreserveStage::Over;
        PreserveAction::Finish(Ok(false))
    }

    /// Takes in what became of the last action and says what to do next.
    pub fn step(&mut self, retries: &mut Retries, now: u64, event: PreserveEvent) -> (action:
        PreserveAction)
        requires
            preserve_sound(old(self)@),
            preserve_fits(old(self)@.stage, event),
            now <= u64::MAX - 60,
        ensures
            ({
                let waits = event matches PreserveEvent::Loaded(Ok(found))
                    && old(retries).table@.contains_key(found.object)
                    && old(retries).table@[found.object].at > now;
                (final(self)@, action) == preserve_stepped(old(self)@, waits, event)
            }),
            final(retries).table@ == preserve_spaced(old(self)@, event, old(retries).table@, now),
            preserve_sound(final(self)@),
    {
        match event {
            PreserveEvent::Loaded(Err(error)) => {
                self.stage = PreserveStage::Over;
                PreserveAction::Finish(Err(error))
            },
            PreserveEvent::Loaded(Ok(found)) => self.load(retries, now, found),
            PreserveEvent::Readers(readers) => {
                let object: Id;
                let fetch: Result<bool, WriteError>;
                match &self.removed {
                    Some(removed) => {
                        object = removed.object;
                        fetch = if readers.len() == 0 || removed.streamed {
                            Ok(false)
                        } else {
                            match &removed.remote {
                                None => Err(WriteError::Failure),
                                Some(remote) => match check_readers(&readers, remote) {
                                    Ok(_) => Ok(true),
                                    Err(error) => Err(error),
                                },
                            }
                        };
                    },
                    None => {
                        return PreserveAction::Finish(Err(WriteError::Failure));
                    },
                }
                match fetch {
                    Err(error) => self.fail(object, retries, now, error),
                    Ok(true) => {
                        self.stage = PreserveStage::Fetching;
                        PreserveAction::Fetch(object)
                    },
                    Ok(false) => {
                        self.stage = PreserveStage::Rechecking;
                        PreserveAction::Recheck(object)
                    },
                }
            },
            PreserveEvent::Fetched(result) => {
                let object: Id = self.object();
                match result {
                    Ok(_) => {
                        self.stage = PreserveStage::Rechecking;
                        PreserveAction::Recheck(object)
                    },
                    Err(error) => self.fail(object, retries, now, error),
                }
            },
            PreserveEvent::Rechecked { used, streamed } => {
                let object: Id = self.object();
                if used && !streamed {
                    return self.fail(object, retries, now, WriteError::Again);
                }
                self.stage = PreserveStage::Waiting;
                PreserveAction::Wait(object)
            },
            PreserveEvent::Waited(result) => {
                let object: Id = self.object();
                match result {
                    Ok(_) => {
                        self.stage = PreserveStage::Releasing;
                        PreserveAction::Release(self.removals[self.at].operation)
                    },
                    Err(error) => self.fail(object, retries, now, error),
                }
            },
            PreserveEvent::Released(result) => {
                let object: Id = self.object();
                match result {
                    Ok(_) => {
                        retries.clear(object);
                        self.stage = PreserveStage::Over;
                        PreserveAction::Finish(Ok(true))
                    },
                    Err(error) => self.fail(object, retries, now, error),
                }
            },
        }
    }

    /// The object of the current removal.
    fn object(&self) -> (object: Id)
        requires
            self.removed is Some,
        ensures
            object == self.removed->0.object,
    {
        match &self.removed {
            Some(removed) => removed.object,
            None => 0,
        }
    }
}

/// A removal is released only once every read from the provider has ended, and only
/// that removal.
pub proof fn readers_come_before_removal(pass: PreservePass, waits: bool, event: PreserveEvent)
    requires
        preserve_sound(pass),
        preserve_fits(pass.stage, event),
        preserve_stepped(pass, waits, event).1 is Release,
    ensures
        event matches PreserveEvent::Waited(result) && result is Ok,
        preserve_stepped(pass, waits, event).1->Release_0 == pass.removals[pass.at].operation,
{
}

/// Waiting starts only for a file that nobody uses or that has local bytes.
pub proof fn readers_keep_their_bytes(pass: PreservePass, waits: bool, event: PreserveEvent)
    requires
        preserve_sound(pass),
        preserve_fits(pass.stage, event),
        preserve_stepped(pass, waits, event).1 is Wait,
    ensures
        event matches PreserveEvent::Rechecked { used, streamed } && (!used || streamed),
{
}

/// Readers of a removed file keep the bytes that they were given: local bytes are enough,
/// and where there are none they are fetched, provided that every reader was given what the
/// provider has. A reader of other bytes stops the removal.
pub proof fn readers_get_what_they_were_given(
    pass: PreservePass,
    waits: bool,
    readers: Vec<Node>,
    i: int,
)
    requires
        preserve_sound(pass),
        pass.stage == PreserveStage::Listing,
    ensures
        ({
            let removed = pass.removed->0;
            let action = preserve_stepped(pass, waits, PreserveEvent::Readers(readers)).1;
            &&& readers@.len() == 0 || removed.streamed ==> action == PreserveAction::Recheck(
                removed.object,
            )
            &&& readers@.len() > 0 && !removed.streamed && removed.remote is None ==> action
                == PreserveAction::Finish(Err(WriteError::Failure))
            &&& readers@.len() > 0 && !removed.streamed && removed.remote is Some ==> {
                let remote = removed.remote->0;
                &&& action == PreserveAction::Fetch(removed.object) || action
                    == PreserveAction::Finish(Err(WriteError::Stale))
                &&& action is Fetch && 0 <= i < readers@.len() ==> readers@[i].size == remote.size
                    && content_revision(readers@[i]@) == content_revision(remote@)
                &&& action is Finish ==> exists|j: int|
                    0 <= j < readers@.len() && !((#[trigger] readers@[j]).size == remote.size
                        && content_revision(readers@[j]@) == content_revision(remote@))
            }
        }),
{
}

/// A removal goes through its stages in order, with its own file and its own operation: it
/// is looked up, its readers are listed, their bytes fetched, its users looked at again, its
/// reads awaited, and only then is it released. A failure on the way ends the pass with it.
pub proof fn removals_are_released_in_order(
    pass: PreservePass,
    waits: bool,
    found: Removed,
    used: bool,
    streamed: bool,
    error: WriteError,
)
    requires
        preserve_sound(pass),
    ensures
        pass.stage == PreserveStage::Loading ==> {
            let next = preserve_stepped(pass, waits, PreserveEvent::Loaded(Ok(found)));
            &&& !waits ==> next.1 == PreserveAction::List(found.object) && next.0.at == pass.at
                && next.0.removed == Some(found)
            &&& waits && pass.at + 1 < pass.removals.len() ==> next.1 == PreserveAction::Load(
                pass.removals[pass.at + 1].operation,
            ) && next.0.at == pass.at + 1 && next.0.cursor == pass.removals[pass.at + 1].sequence
            &&& waits && pass.at + 1 == pass.removals.len() ==> next.1 == PreserveAction::Finish(
                Ok(false),
            )
            &&& preserve_stepped(pass, waits, PreserveEvent::Loaded(Err(error))).1
                == PreserveAction::Finish(Err(error))
        },
        pass.stage == PreserveStage::Fetching ==> {
            &&& preserve_stepped(pass, waits, PreserveEvent::Fetched(Ok(()))).1
                == PreserveAction::Recheck(pass.removed->0.object)
            &&& preserve_stepped(pass, waits, PreserveEvent::Fetched(Err(error))).1
                == PreserveAction::Finish(Err(error))
        },
        pass.stage == PreserveStage::Rechecking ==> {
            let next = preserve_stepped(
                pass,
                waits,
                (PreserveEvent::Rechecked { used, streamed }),
            );
            &&& !used || streamed ==> next.1 == PreserveAction::Wait(pass.removed->0.object)
            &&& used && !streamed ==> next.1 == PreserveAction::Finish(Err(WriteError::Again))
        },
        pass.stage == PreserveStage::Waiting ==> {
            &&& preserve_stepped(pass, waits, PreserveEvent::Waited(Ok(()))).1
                == PreserveAction::Release(pass.removals[pass.at].operation)
            &&& preserve_stepped(pass, waits, PreserveEvent::Waited(Err(error))).1
                == PreserveAction::Finish(Err(error))
        },
        pass.stage == PreserveStage::Releasing ==> {
            &&& preserve_stepped(pass, waits, PreserveEvent::Released(Ok(()))).1
                == PreserveAction::Finish(Ok(true))
            &&& preserve_stepped(pass, waits, PreserveEvent::Released(Err(error))).1
                == PreserveAction::Finish(Err(error))
        },
{
}

/// What fails behind the lookup makes the removed file wait, a release ends its waiting, and
/// no other file is touched.
pub proof fn failed_removals_wait(
    pass: PreservePass,
    event: PreserveEvent,
    retries: Map<Id, Retry>,
    now: u64,
    other: Id,
)
    requires
        preserve_sound(pass),
        preserve_fits(pass.stage, event),
        now <= u64::MAX - 60,
    ensures
        ({
            let object = pass.removed->0.object;
            let after = preserve_spaced(pass, event, retries, now);
            let action = preserve_stepped(pass, false, event).1;
            &&& event is Loaded ==> after == retries
            &&& other != object ==> after.contains_key(other) == retries.contains_key(other)
                && (after.contains_key(other) ==> after[other] == retries[other])
            &&& !(event is Loaded) && action is Finish && action->Finish_0 is Err
                ==> after.contains_key(object) && after[object].at > now
            &&& event == PreserveEvent::Released(Ok(())) ==> !after.contains_key(object)
            &&& !(action is Finish) ==> after == retries
        }),
{
    failures_double_the_wait(retries, pass.removed->0.object, now, other);
}

} // verus!
