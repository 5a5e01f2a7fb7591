//! Bringing the bytes of a remote file into a local stream: before it is written to, and
//! as the source of a replacement.
use crate::filesystem::projection::WriteError;
use crate::filesystem::views::ResolvedView;
use crate::filesystem::writeback::{backoff, fetched, next_range, opened_node, preparation_retry};
use crate::model::{Node, NodeKind};
use vstd::prelude::*;

verus! {

/// A file being fetched block by block.
#[derive(Clone, Copy, Debug, PartialEq, Eq, Structural)]
pub struct Download {
    pub size: u64,
    pub offset: u64,
    pub block: u32,
}

/// The range to fetch next, at most one block. `None` says that everything is here.
pub open spec fn next_of(download: Download) -> Option<(u64, u32)> {
    if download.offset >= download.size {
        None
    } else if download.size - download.offset < download.block {
        Some((download.offset, (download.size - download.offset) as u32))
    } else {
        Some((download.offset, download.block))
    }
}

impl Download {
    /// Nothing is here yet.
    pub fn new(size: u64, block: u32) -> (download: Self)
        ensures
            download == (Download { size, offset: 0, block }),
    {
        Download { size, offset: 0, block }
    }

    /// The range to fetch next.
    pub fn next(&self) -> (range: Option<(u64, u32)>)
        ensures
            range == next_of(*self),
    {
        match next_range(self.offset, self.size, self.block) {
            Some(count) => Some((self.offset, count)),
            None => None,
        }
    }

    /// Takes in some bytes. A source that gives nothing has failed.
    pub fn take(&mut self, count: usize) -> (result: Result<(), WriteError>)
        requires
            old(self).offset + count <= u64::MAX,
        ensures
            count == 0 ==> result == Err::<(), WriteError>(WriteError::Failure) && *final(self)
                == *old(self),
            count > 0 ==> result is Ok && *final(self) == (Download {
                offset: (old(self).offset + count) as u64,
                ..*old(self)
            }),
    {
        match fetched(self.offset, count) {
            Ok(offset) => {
                self.offset = offset;
                Ok(())
            },
            Err(error) => Err(error),
        }
    }
}

/// Where the opening of a stream stands.
#[derive(Clone, Copy, Debug, PartialEq, Eq, Structural)]
pub enum HydrateStage {
    /// Space is being reserved.
    Reserving,
    /// Bytes are being fetched.
    Fetching,
    /// The stream is being published.
    Publishing,
    /// The stream is being cut.
    Truncating,
    /// It is over.
    Over,
}

/// What became of the last action.
#[derive(Clone, Copy, Debug, PartialEq, Eq)]
pub enum HydrateEvent {
    /// It is done, or failed.
    Done(Result<(), WriteError>),
    /// This many bytes were fetched and written down.
    Bytes(usize),
}

/// What to do next.
#[derive(Clone, Copy, Debug, PartialEq, Eq)]
pub enum HydrateAction {
    /// Reserve space for a stream of this size.
    Reserve(u64),
    /// Fetch this range and write it down.
    Fetch(u64, u32),
    /// Publish the stream.
    Publish,
    /// Cut the stream to nothing.
    Truncate,
    /// The stream is open, or why it is not.
    Finish(Result<(), WriteError>),
}

/// A stream being opened for writing.
#[derive(Debug)]
pub struct Hydration {
    /// The file that the stream is opened for, where it has none yet.
    pub node: Option<Node>,
    pub truncate: bool,
    pub download: Download,
    pub stage: HydrateStage,
}

/// What follows an open stream: it is cut where that was asked for.
pub open spec fn opened(truncate: bool) -> (HydrateStage, HydrateAction) {
    if truncate {
        (HydrateStage::Truncating, HydrateAction::Truncate)
    } else {
        (HydrateStage::Over, HydrateAction::Finish(Ok(())))
    }
}

/// What follows the bytes that are here.
pub open spec fn filled(download: Download) -> (HydrateStage, HydrateAction) {
    match next_of(download) {
        Some((offset, count)) => (HydrateStage::Fetching, HydrateAction::Fetch(offset, count)),
        None => (HydrateStage::Publishing, HydrateAction::Publish),
    }
}

/// The download after an event.
pub open spec fn received(download: Download, event: HydrateEvent) -> Download {
    match event {
        HydrateEvent::Bytes(count) => Download {
            offset: (download.offset + count) as u64,
            ..download
        },
        HydrateEvent::Done(_) => download,
    }
}

/// The event is an outcome of what was being done.
pub open spec fn hydrate_fits(stage: HydrateStage, event: HydrateEvent) -> bool {
    &&& stage != HydrateStage::Over
    &&& event is Bytes ==> stage == HydrateStage::Fetching
    &&& stage == HydrateStage::Fetching && event is Done ==> event->Done_0 is Err
}

/// What follows an event.
pub open spec fn hydrated(
    stage: HydrateStage,
    truncate: bool,
    download: Download,
    event: HydrateEvent,
) -> (HydrateStage, HydrateAction) {
    match event {
        HydrateEvent::Done(Err(error)) => (
            HydrateStage::Over,
            HydrateAction::Finish(Err(error)),
        ),
        HydrateEvent::Done(Ok(_)) => match stage {
            HydrateStage::Reserving => filled(download),
            HydrateStage::Publishing => opened(truncate),
            _ => (HydrateStage::Over, HydrateAction::Finish(Ok(()))),
        },
        HydrateEvent::Bytes(count) => if count == 0 {
            (HydrateStage::Over, HydrateAction::Finish(Err(WriteError::Failure)))
        } else {
            filled(received(download, event))
        },
    }
}

impl Hydration {
    /// Starts to open a stream. `streamed` says that the file has one already; only a
    /// plain file gets a new one, and one that is to be cut fetches nothing.
    pub fn start(view: &ResolvedView, streamed: bool, truncate: bool, block: u32) -> (started: (
        Self,
        HydrateAction,
    ))
        ensures
            started.0.truncate == truncate,
            streamed ==> started.0.node is None && (started.0.stage, started.1) == opened(truncate),
            !streamed && (view.reference || view.node.kind != NodeKind::File)
                ==> started.0.node is None && started.0.stage == HydrateStage::Over && started.1
                == HydrateAction::Finish(Err(WriteError::NotSupported)),
            !streamed && !view.reference && view.node.kind == NodeKind::File ==> {
                let node = if truncate {
                    Node { size: 0, ..view.node }
                } else {
                    view.node
                };
                &&& started.0.node == Some(node)
                &&& started.0.stage == HydrateStage::Reserving
                &&& started.0.download == (Download { size: node.size, offset: 0, block })
                &&& started.1 == HydrateAction::Reserve(node.size)
            },
    {
        let nothing = Download::new(0, block);
        if streamed {
            let (stage, action) = if truncate {
                (HydrateStage::Truncating, HydrateAction::Truncate)
            } else {
                (HydrateStage::Over, HydrateAction::Finish(Ok(())))
            };
            return (Hydration { node: None, truncate, download: nothing, stage }, action);
        }
        match opened_node(view, truncate) {
            Err(error) => (
                Hydration { node: None, truncate, download: nothing, stage: HydrateStage::Over },
                HydrateAction::Finish(Err(error)),
            ),
            Ok(node) => {
                let size: u64 = node.size;
                (
                    Hydration {
                        node: Some(node),
                        truncate,
                        download: Download::new(size, block),
                        stage: HydrateStage::Reserving,
                    },
                    HydrateAction::Reserve(size),
                )
            },
        }
    }

    /// Goes on with what is still missing.
    fn fill(&mut self) -> (action: HydrateAction)
        ensures
            final(self).node == old(self).node,
            final(self).truncate == old(self).truncate,
            final(self).download == old(self).download,
            (final(self).stage, action) == filled(old(self).download),
    {
        match self.download.next() {
            Some((offset, count)) => {
                self.stage = HydrateStage::Fetching;
                HydrateAction::Fetch(offset, count)
            },
            None => {
                self.stage = HydrateStage::Publishing;
                HydrateAction::Publish
            },
        }
    }

    /// Takes in what became of the last action and says what to do next.
    pub fn step(&mut self, event: HydrateEvent) -> (action: HydrateAction)
        requires
            hydrate_fits(old(self).stage, event),
            event matches HydrateEvent::Bytes(count) ==> old(self).download.offset + count
                <= u64::MAX,
        ensures
            final(self).node == old(self).node,
            final(self).truncate == old(self).truncate,
            final(self).download == received(old(self).download, event),
            (final(self).stage, action) == hydrated(
                old(self).stage,
                old(self).truncate,
                old(self).download,
                event,
            ),
    {
        match event {
            HydrateEvent::Done(Err(error)) => {
                self.stage = HydrateStage::Over;
                HydrateAction::Finish(Err(error))
            },
            HydrateEvent::Done(Ok(_)) => {
                if self.stage == HydrateStage::Reserving {
                    return self.fill();
                }
                if self.stage == HydrateStage::Publishing && self.truncate {
                    self.stage = HydrateStage::Truncating;
                    return HydrateAction::Truncate;
                }
                self.stage = HydrateStage::Over;
                HydrateAction::Finish(Ok(()))
            },
            HydrateEvent::Bytes(count) => {
                match self.download.take(count) {
                    Err(error) => {
                        self.stage = HydrateStage::Over;
                        HydrateAction::Finish(Err(error))
                    },
                    Ok(_) => self.fill(),
                }
            },
        }
    }
}

/// A stream is published only when every byte of the file has been fetched, in order and
/// without a gap.
pub proof fn streams_are_published_whole(
    stage: HydrateStage,
    truncate: bool,
    download: Download,
    event: HydrateEvent,
)
    requires
        hydrate_fits(stage, event),
    ensures
        ({
            let next = hydrated(stage, truncate, download, event);
            let after = received(download, event);
            &&& next.1 is Publish ==> after.offset >= after.size
            &&& next.1 matches HydrateAction::Fetch(offset, count) ==> {
                &&& offset == after.offset
                &&& offset + count <= after.size
                &&& count <= after.block
            }
        }),
{
}

/// Where the preparation of a replacement's source stands.
#[derive(Clone, Copy, Debug, PartialEq, Eq, Structural)]
pub enum SourceStage {
    /// An earlier capture is being looked for.
    Resuming,
    /// Space is being reserved.
    Reserving,
    /// Bytes are being fetched.
    Fetching,
    /// The capture is being committed.
    Completing,
    /// What is shown is being brought up to date.
    Refreshing,
    /// The attempt is being deferred for this failure.
    Deferring(WriteError),
    /// It is over.
    Over,
}

/// What became of the last action.
#[derive(Clone, Copy, Debug, PartialEq, Eq)]
pub enum SourceEvent {
    /// Whether an earlier capture was taken over.
    Resumed(Result<bool, WriteError>),
    /// It is done, or failed.
    Done(Result<(), WriteError>),
    /// This many bytes were fetched and written down.
    Bytes(usize),
}

/// What to do next.
#[derive(Clone, Copy, Debug, PartialEq, Eq)]
pub enum SourceAction {
    /// Take over an earlier capture, where there is one.
    Resume,
    /// Reserve space for the capture.
    Reserve,
    /// Fetch this range and write it down.
    Fetch(u64, u32),
    /// Commit the capture.
    Complete,
    /// Bring what is shown up to date.
    Refresh,
    /// Defer the attempt, as a conflict or for so many seconds.
    Defer(bool, u64),
    /// The answer says that a source was prepared.
    Finish(Result<bool, WriteError>),
}

/// The source of a replacement being prepared under an attempt.
#[derive(Debug)]
pub struct SourcePreparation {
    /// The size of the remote source, where there is one.
    pub remote: Option<u64>,
    pub failed_attempts: u32,
    pub download: Download,
    pub stage: SourceStage,
}

/// How an attempt is deferred for a failure: what will not change by waiting is a
/// conflict, and a stopping account does not wait.
pub open spec fn deferred_for(failure: WriteError, failed_attempts: u32) -> SourceAction {
    SourceAction::Defer(
        failure == WriteError::Stale || failure == WriteError::NotFound,
        if failure == WriteError::NoDevice {
            0
        } else {
            backoff(
                if failed_attempts < 5 {
                    failed_attempts
                } else {
                    5
                },
            ) as u64
        },
    )
}

/// An attempt that failed.
pub open spec fn source_failed(failure: WriteError, failed_attempts: u32) -> (
    SourceStage,
    SourceAction,
) {
    (SourceStage::Deferring(failure), deferred_for(failure, failed_attempts))
}

/// What follows the bytes that are here.
pub open spec fn source_filled(download: Download) -> (SourceStage, SourceAction) {
    match next_of(download) {
        Some((offset, count)) => (SourceStage::Fetching, SourceAction::Fetch(offset, count)),
        None => (SourceStage::Completing, SourceAction::Complete),
    }
}

/// The download after an event.
pub open spec fn source_received(download: Download, event: SourceEvent) -> Download {
    match event {
        SourceEvent::Bytes(count) => Download {
            offset: (download.offset + count) as u64,
            ..download
        },
        _ => download,
    }
}

/// The event is an outcome of what was being done.
pub open spec fn source_fits(stage: SourceStage, event: SourceEvent) -> bool {
    match stage {
        SourceStage::Resuming => event is Resumed,
        SourceStage::Fetching => event is Bytes || (event is Done && event->Done_0 is Err),
        SourceStage::Over => false,
        _ => event is Done,
    }
}

/// What follows an event.
pub open spec fn source_stepped(
    stage: SourceStage,
    remote: Option<u64>,
    failed_attempts: u32,
    download: Download,
    event: SourceEvent,
) -> (SourceStage, SourceAction) {
    match (stage, event) {
        (SourceStage::Resuming, SourceEvent::Resumed(Ok(resumed))) => if resumed {
            (SourceStage::Refreshing, SourceAction::Refresh)
        } else if remote is None {
            source_failed(WriteError::Failure, failed_attempts)
        } else {
            (SourceStage::Reserving, SourceAction::Reserve)
        },
        (SourceStage::Resuming, SourceEvent::Resumed(Err(error))) => source_failed(
            error,
            failed_attempts,
        ),
        (SourceStage::Reserving, SourceEvent::Done(Ok(_))) => source_filled(download),
        (SourceStage::Fetching, SourceEvent::Bytes(count)) => if count == 0 {
            source_failed(WriteError::Failure, failed_attempts)
        } else {
            source_filled(source_received(download, event))
        },
        (SourceStage::Completing, SourceEvent::Done(Ok(_))) => (
            SourceStage::Refreshing,
            SourceAction::Refresh,
        ),
        (SourceStage::Refreshing, SourceEvent::Done(Ok(_))) => (
            SourceStage::Over,
            SourceAction::Finish(Ok(true)),
        ),
        (SourceStage::Refreshing, SourceEvent::Done(Err(error))) => (
            SourceStage::Over,
            SourceAction::Finish(Err(error)),
        ),
        (SourceStage::Deferring(failure), SourceEvent::Done(Ok(_))) => (
            SourceStage::Over,
            SourceAction::Finish(Err(failure)),
        ),
        (SourceStage::Deferring(_), SourceEvent::Done(Err(error))) => (
            SourceStage::Over,
            SourceAction::Finish(Err(error)),
        ),
        (_, SourceEvent::Done(Err(error))) => source_failed(error, failed_attempts),
        _ => (stage, SourceAction::Finish(Err(WriteError::Failure))),
    }
}

impl SourcePreparation {
    /// Starts the preparation that an attempt claimed.
    pub fn start(remote: Option<u64>, failed_attempts: u32, block: u32) -> (started: (
        Self,
        SourceAction,
    ))
        ensures
            started.0.remote == remote,
            started.0.failed_attempts == failed_attempts,
            started.0.stage == SourceStage::Resuming,
            started.0.download == (Download {
                size: match remote {
                    Some(size) => size,
                    None => 0,
                },
                offset: 0,
                block,
            }),
            started.1 == SourceAction::Resume,
    {
        let size: u64 = match remote {
            Some(size) => size,
            None => 0,
        };
        (
            SourcePreparation {
                remote,
                failed_attempts,
                download: Download::new(size, block),
                stage: SourceStage::Resuming,
            },
            SourceAction::Resume,
        )
    }

    /// Notes a failure of the attempt.
    fn fail(&mut self, failure: WriteError) -> (action: SourceAction)
        ensures
            final(self).remote == old(self).remote,
            final(self).failed_attempts == old(self).failed_attempts,
            final(self).download == old(self).download,
            (final(self).stage, action) == source_failed(failure, old(self).failed_attempts),
    {
        let (conflict, delay) = preparation_retry(failure, self.failed_attempts);
        self.stage = SourceStage::Deferring(failure);
        SourceAction::Defer(conflict, delay)
    }

    /// Goes on with what is still missing.
    fn fill(&mut self) -> (action: SourceAction)
        ensures
            final(self).remote == old(self).remote,
            final(self).failed_attempts == old(self).failed_attempts,
            final(self).download == old(self).download,
            (final(self).stage, action) == source_filled(old(self).download),
    {
        match self.download.next() {
            Some((offset, count)) => {
                self.stage = SourceStage::Fetching;
                SourceAction::Fetch(offset, count)
            },
            None => {
                self.stage = SourceStage::Completing;
                SourceAction::Complete
            },
        }
    }

    /// Takes in what became of the last action and says what to do next.
    pub fn step(&mut self, event: SourceEvent) -> (action: SourceAction)
        requires
            source_fits(old(self).stage, event),
            event matches SourceEvent::Bytes(count) ==> old(self).download.offset + count
                <= u64::MAX,
        ensures
            final(self).remote == old(self).remote,
            final(self).failed_attempts == old(self).failed_attempts,
            final(self).download == source_received(old(self).download, event),
            (final(self).stage, action) == source_stepped(
                old(self).stage,
                old(self).remote,
                old(self).failed_attempts,
                old(self).download,
                event,
            ),
    {
        match event {
            SourceEvent::Resumed(Ok(resumed)) => {
                if resumed {
                    self.stage = SourceStage::Refreshing;
                    return SourceAction::Refresh;
                }
                if self.remote.is_none() {
                    return self.fail(WriteError::Failure);
                }
                self.stage = SourceStage::Reserving;
                SourceAction::Reserve
            },
            SourceEvent::Resumed(Err(error)) => self.fail(error),
            SourceEvent::Bytes(count) => match self.download.take(count) {
                Ok(_) => self.fill(),
                Err(error) => self.fail(error),
            },
            SourceEvent::Done(Ok(_)) => match self.stage {
                SourceStage::Reserving => self.fill(),
                SourceStage::Completing => {
                    self.stage = SourceStage::Refreshing;
                    SourceAction::Refresh
                },
                SourceStage::Deferring(failure) => {
                    self.stage = SourceStage::Over;
                    SourceAction::Finish(Err(failure))
                },
                _ => {
                    self.stage = SourceStage::Over;
                    SourceAction::Finish(Ok(true))
                },
            },
            SourceEvent::Done(Err(error)) => match self.stage {
                SourceStage::Refreshing | SourceStage::Deferring(_) => {
                    self.stage = SourceStage::Over;
                    SourceAction::Finish(Err(error))
                },
                _ => self.fail(error),
            },
        }
    }
}

/// A capture that has been committed is never deferred, whatever becomes of showing it.
pub proof fn committed_captures_are_not_deferred(
    remote: Option<u64>,
    failed_attempts: u32,
    download: Download,
    event: SourceEvent,
)
    requires
        source_fits(SourceStage::Refreshing, event),
    ensures
        source_stepped(SourceStage::Refreshing, remote, failed_attempts, download, event).1 is Finish,
{
}

/// A capture is committed only when every byte has been fetched.
pub proof fn captures_are_committed_whole(
    stage: SourceStage,
    remote: Option<u64>,
    failed_attempts: u32,
    download: Download,
    event: SourceEvent,
)
    requires
        source_fits(stage, event),
        source_stepped(stage, remote, failed_attempts, download, event).1 is Complete,
    ensures
        source_received(download, event).offset >= download.size,
{
}

/// A download asks for the bytes that are missing next, in order: from where it stands, as
/// many as are missing but never more than one block, and nothing once everything is here.
pub proof fn downloads_go_on_where_they_stand(download: Download)
    ensures
        next_of(download) is None <==> download.offset >= download.size,
        next_of(download) matches Some((offset, count)) ==> {
            &&& offset == download.offset
            &&& count <= download.block
            &&& offset + count <= download.size
            &&& count == download.block || offset + count == download.size
        },
{
}

/// A stream is reserved, filled and published, in this order; one that is to be cut is cut
/// last. It ends well only there, a failure ends it with that failure, and a source that
/// gives nothing is a failure.
pub proof fn streams_are_filled_before_they_are_published(
    truncate: bool,
    download: Download,
    count: usize,
    error: WriteError,
    stage: HydrateStage,
)
    requires
        download.offset + count <= u64::MAX,
    ensures
        ({
            let next = hydrated(
                HydrateStage::Reserving,
                truncate,
                download,
                HydrateEvent::Done(Ok(())),
            ).1;
            &&& download.offset < download.size ==> next is Fetch && next->Fetch_0
                == download.offset
            &&& download.offset >= download.size ==> next == HydrateAction::Publish
        }),
        ({
            let next = hydrated(
                HydrateStage::Fetching,
                truncate,
                download,
                HydrateEvent::Bytes(count),
            ).1;
            &&& count == 0 ==> next == HydrateAction::Finish(Err(WriteError::Failure))
            &&& count > 0 && download.offset + count < download.size ==> next is Fetch
                && next->Fetch_0 == download.offset + count
            &&& count > 0 && download.offset + count >= download.size ==> next
                == HydrateAction::Publish
        }),
        received(download, HydrateEvent::Bytes(count)).offset == download.offset + count,
        received(download, HydrateEvent::Bytes(count)).size == download.size,
        received(download, HydrateEvent::Bytes(count)).block == download.block,
        ({
            let next = hydrated(
                HydrateStage::Publishing,
                truncate,
                download,
                HydrateEvent::Done(Ok(())),
            ).1;
            next == if truncate {
                HydrateAction::Truncate
            } else {
                HydrateAction::Finish(Ok(()))
            }
        }),
        hydrated(HydrateStage::Truncating, truncate, download, HydrateEvent::Done(Ok(()))).1
            == HydrateAction::Finish(Ok(())),
        hydrated(stage, truncate, download, HydrateEvent::Done(Err(error))).1
            == HydrateAction::Finish(Err(error)),
{
}

/// A failed preparation is a conflict where waiting would not change what failed: the source
/// changed, or it is gone. It waits a second after the first failure, twice as long after
/// each further one up to half a minute, and not at all where the account is stopping.
pub proof fn failed_preparations_wait(failure: WriteError, failed_attempts: u32)
    ensures
        deferred_for(failure, failed_attempts) is Defer,
        deferred_for(failure, failed_attempts)->Defer_0 <==> failure == WriteError::Stale
            || failure == WriteError::NotFound,
        failure == WriteError::NoDevice ==> deferred_for(failure, failed_attempts)->Defer_1 == 0,
        failure != WriteError::NoDevice ==> {
            let delay = deferred_for(failure, failed_attempts)->Defer_1;
            &&& failed_attempts == 0 ==> delay == 1
            &&& failed_attempts >= 5 ==> delay == 32
            &&& failed_attempts < 5 ==> deferred_for(
                failure,
                (failed_attempts + 1) as u32,
            )->Defer_1 == 2 * delay
        },
{
    reveal_with_fuel(backoff, 8);
}

/// A source is prepared in order: an earlier capture is used where there is one, else space
/// is reserved, every byte fetched and the capture committed; then what is shown is brought up
/// to date, and only then is it prepared. A failure defers the attempt and is reported.
pub proof fn sources_are_captured_whole(
    remote: Option<u64>,
    failed_attempts: u32,
    download: Download,
    count: usize,
    error: WriteError,
    later: WriteError,
)
    requires
        download.offset + count <= u64::MAX,
    ensures
        ({
            let after = |stage: SourceStage, event: SourceEvent|
                source_stepped(stage, remote, failed_attempts, download, event).1;
            let done = SourceEvent::Done(Ok(()));
            let failed = SourceEvent::Done(Err(error));
            &&& after(SourceStage::Resuming, SourceEvent::Resumed(Ok(true)))
                == SourceAction::Refresh
            &&& remote is Some ==> after(SourceStage::Resuming, SourceEvent::Resumed(Ok(false)))
                == SourceAction::Reserve
            &&& remote is None ==> after(
                SourceStage::Resuming,
                SourceEvent::Resumed(Ok(false)),
            ) is Defer
            &&& after(SourceStage::Resuming, SourceEvent::Resumed(Err(error))) == deferred_for(
                error,
                failed_attempts,
            )
            &&& download.offset < download.size ==> after(SourceStage::Reserving, done) is Fetch
                && after(SourceStage::Reserving, done)->Fetch_0 == download.offset
            &&& download.offset >= download.size ==> after(SourceStage::Reserving, done)
                == SourceAction::Complete
            &&& count == 0 ==> after(SourceStage::Fetching, SourceEvent::Bytes(count)) is Defer
            &&& count > 0 && download.offset + count < download.size ==> after(
                SourceStage::Fetching,
                SourceEvent::Bytes(count),
            ) is Fetch && after(SourceStage::Fetching, SourceEvent::Bytes(count))->Fetch_0
                == download.offset + count
            &&& count > 0 && download.offset + count >= download.size ==> after(
                SourceStage::Fetching,
                SourceEvent::Bytes(count),
            ) == SourceAction::Complete
            &&& after(SourceStage::Completing, done) == SourceAction::Refresh
            &&& after(SourceStage::Refreshing, done) == SourceAction::Finish(Ok(true))
            &&& after(SourceStage::Reserving, failed) == deferred_for(error, failed_attempts)
            &&& after(SourceStage::Fetching, failed) == deferred_for(error, failed_attempts)
            &&& after(SourceStage::Completing, failed) == deferred_for(error, failed_attempts)
            &&& after(SourceStage::Refreshing, failed) == SourceAction::Finish(Err(error))
            &&& after(SourceStage::Deferring(later), done) == SourceAction::Finish(Err(later))
            &&& after(SourceStage::Deferring(later), failed) == SourceAction::Finish(Err(error))
        }),
        source_received(download, SourceEvent::Bytes(count)).offset == download.offset + count,
{
}

/// A file that has a stream is opened at once; a plain file without one gets a stream of its
/// size, or an empty one where it is to be cut; nothing else gets one.
pub proof fn streams_are_opened_for_plain_files(
    view: ResolvedView,
    streamed: bool,
    truncate: bool,
    block: u32,
    started: (Hydration, HydrateAction),
)
    requires
        call_ensures(Hydration::start, (&view, streamed, truncate, block), started),
    ensures
        streamed && !truncate ==> started.1 == HydrateAction::Finish(Ok(())),
        streamed && truncate ==> started.1 == HydrateAction::Truncate,
        !streamed && (view.reference || view.node.kind != NodeKind::File) ==> started.1
            == HydrateAction::Finish(Err(WriteError::NotSupported)),
        !streamed && !view.reference && view.node.kind == NodeKind::File ==> {
            &&& started.1 == HydrateAction::Reserve(
                if truncate {
                    0
                } else {
                    view.node.size
                },
            )
            &&& started.0.node is Some && started.0.node->0.id == view.node.id
            &&& started.0.download.offset == 0
            &&& started.0.download.block == block
        },
{
}

} // verus!
