//! Work a person asked for that outlives the answer to their request.
//!
//! The request answers with a job, and this is the register that a job lives in
//! while it runs: a level to read it from, and a state to stop it with.
use crate::outside::{fresh_id, id_text, write_id};
use crate::recent::now_unix;
use crate::text::{copy_optional, same_text};
use vstd::prelude::*;

verus! {

/// How many jobs that ended badly stay visible.
pub const RETAINED: usize = 4;

/// For how long a job that ended badly stays visible, in nanoseconds.
pub const RETAIN_FOR: u64 = 600_000_000_000;

/// What kind of work this is.
#[derive(Clone, Copy, Debug, PartialEq, Eq, Structural)]
pub enum JobKind {
    /// Fetching everything a pin covers, so it is really on this computer.
    KeepOffline,
    /// A kind that this build has never heard of.
    Unknown,
}

/// Where the job has got to.
#[derive(Clone, Copy, Debug, PartialEq, Eq, Structural)]
pub enum JobState {
    Running,
    /// Asked to stop. It ends at the next file boundary rather than instantly.
    Stopping,
    /// Stopped because someone asked it to.
    Stopped,
    /// Gave up, for the reason in `issue`.
    Failed,
    Unknown,
}

impl Default for JobKind {
    fn default() -> (kind: Self)
        ensures
            kind == JobKind::KeepOffline,
    {
        JobKind::KeepOffline
    }
}

impl Default for JobState {
    fn default() -> (state: Self)
        ensures
            state == JobState::Running,
    {
        JobState::Running
    }
}

/// One piece of long work, as a client sees it.
#[derive(Debug)]
pub struct Job {
    pub id: String,
    pub kind: JobKind,
    /// What is being kept, as a path below the mount.
    pub name: String,
    pub files_total: u64,
    pub files_done: u64,
    pub bytes_total: u64,
    pub bytes_done: u64,
    /// Unix seconds. A client shows elapsed time from it and nothing else.
    pub started_at: u64,
    pub state: JobState,
    pub issue: Option<String>,
}

impl Clone for Job {
    fn clone(&self) -> (copy: Self)
        ensures
            copy == *self,
    {
        Job {
            id: self.id.clone(),
            kind: self.kind,
            name: self.name.clone(),
            files_total: self.files_total,
            files_done: self.files_done,
            bytes_total: self.bytes_total,
            bytes_done: self.bytes_done,
            started_at: self.started_at,
            state: self.state,
            issue: copy_optional(&self.issue),
        }
    }
}

/// The job is still moving.
pub open spec fn moving(job: Job) -> bool {
    job.state == JobState::Running || job.state == JobState::Stopping
}

impl Job {
    /// Whether this is still moving, so a client knows to keep asking.
    pub fn running(&self) -> (running: bool)
        ensures
            running == moving(*self),
    {
        self.state == JobState::Running || self.state == JobState::Stopping
    }
}

/// What `stop` found.
#[derive(Clone, Copy, Debug, PartialEq, Eq, Structural)]
pub enum Stopped {
    /// It was running and has been asked to stop.
    Asked,
    /// It had already ended; the record was cleared instead.
    Dismissed,
    /// No such job.
    Unknown,
}

/// How a job ended, where it did not do what it was asked.
#[derive(Debug)]
pub struct Ended {
    pub state: JobState,
    pub issue: Option<String>,
}

/// The register of one account: what is running, in the order it was started, and
/// what ended badly and when.
#[derive(Debug)]
pub struct Jobs {
    pub running: Vec<Job>,
    pub ended: Vec<(u64, Job)>,
}

/// The content of a register.
#[verifier::ext_equal]
pub struct JobsView {
    pub running: Seq<Job>,
    pub ended: Seq<(u64, Job)>,
}

impl View for Jobs {
    type V = JobsView;

    open spec fn view(&self) -> JobsView {
        JobsView { running: self.running@, ended: self.ended@ }
    }
}

/// The place of the first running job with this identity.
pub open spec fn place(running: Seq<Job>, id: Seq<char>) -> Option<int>
    decreases running.len(),
{
    if running.len() == 0 {
        None
    } else if running[0].id@ == id {
        Some(0)
    } else {
        match place(running.drop_first(), id) {
            Some(at) => Some(at + 1),
            None => None,
        }
    }
}

proof fn lemma_place(running: Seq<Job>, id: Seq<char>, at: int)
    requires
        0 <= at <= running.len(),
        forall|i: int| 0 <= i < at ==> (#[trigger] running[i]).id@ != id,
        at < running.len() ==> running[at].id@ == id,
    ensures
        place(running, id) == (if at < running.len() {
            Some(at)
        } else {
            None::<int>
        }),
    decreases running.len(),
{
    if at > 0 {
        let rest = running.drop_first();
        assert forall|i: int| 0 <= i < at - 1 implies (#[trigger] rest[i]).id@ != id by {
            assert(rest[i] == running[i + 1]);
        }
        lemma_place(rest, id, at - 1);
    }
}

/// A job that has just been started.
pub open spec fn started(
    job: Job,
    id: Seq<char>,
    at: u64,
    kind: JobKind,
    name: String,
    files_total: u64,
    bytes_total: u64,
) -> bool {
    job.id@ == id && job == (Job {
        id: job.id,
        kind,
        name,
        files_total,
        files_done: 0,
        bytes_total,
        bytes_done: 0,
        started_at: at,
        state: JobState::Running,
        issue: None,
    })
}

/// A register after a job was started.
pub open spec fn with_job(
    before: JobsView,
    after: JobsView,
    id: Seq<char>,
    at: u64,
    kind: JobKind,
    name: String,
    files_total: u64,
    bytes_total: u64,
) -> bool {
    exists|job: Job| #[trigger]
        started(job, id, at, kind, name, files_total, bytes_total) && after == (JobsView {
            running: before.running.push(job),
            ..before
        })
}

/// The record is still to be shown.
pub open spec fn fresh(at: u64, now: u64) -> bool {
    now < at || now - at < RETAIN_FOR
}

/// The records that are still to be shown.
pub open spec fn shown(ended: Seq<(u64, Job)>, now: u64) -> Seq<(u64, Job)> {
    ended.filter(|entry: (u64, Job)| fresh(entry.0, now))
}

/// The jobs of some records.
pub open spec fn jobs_of(ended: Seq<(u64, Job)>) -> Seq<Job> {
    ended.map_values(|entry: (u64, Job)| entry.1)
}

/// The records of other jobs.
pub open spec fn dismissed(ended: Seq<(u64, Job)>, id: Seq<char>) -> Seq<(u64, Job)> {
    ended.filter(|entry: (u64, Job)| entry.1.id@ != id)
}

/// What stopping a job finds and does.
pub open spec fn stopping(before: JobsView, id: Seq<char>) -> (JobsView, Stopped) {
    match place(before.running, id) {
        Some(at) => (
            JobsView {
                running: before.running.update(
                    at,
                    Job { state: JobState::Stopping, ..before.running[at] },
                ),
                ..before
            },
            Stopped::Asked,
        ),
        None => {
            let left = dismissed(before.ended, id);
            (
                JobsView { ended: left, ..before },
                if left.len() != before.ended.len() {
                    Stopped::Dismissed
                } else {
                    Stopped::Unknown
                },
            )
        },
    }
}

/// A register after a job got further.
pub open spec fn advanced(before: JobsView, id: Seq<char>, files_done: u64, bytes_done: u64) -> JobsView {
    match place(before.running, id) {
        Some(at) => JobsView {
            running: before.running.update(
                at,
                Job { files_done, bytes_done, ..before.running[at] },
            ),
            ..before
        },
        None => before,
    }
}

/// The records after one more: the oldest leaves a full list.
pub open spec fn kept(ended: Seq<(u64, Job)>, entry: (u64, Job)) -> Seq<(u64, Job)> {
    if ended.len() == RETAINED {
        ended.subrange(1, ended.len() as int).push(entry)
    } else {
        ended.push(entry)
    }
}

/// A register after a job ended. One that did what it was asked leaves nothing.
pub open spec fn finished(before: JobsView, id: Seq<char>, now: u64, outcome: Option<Ended>) -> JobsView {
    match place(before.running, id) {
        Some(at) => JobsView {
            running: before.running.remove(at),
            ended: match outcome {
                None => before.ended,
                Some(ended) => kept(
                    before.ended,
                    (
                        now,
                        Job {
                            state: ended.state,
                            issue: ended.issue,
                            ..before.running[at]
                        },
                    ),
                ),
            },
        },
        None => before,
    }
}

/// The first job with an identity, running or retained.
pub open spec fn found_in(register: JobsView, id: Seq<char>) -> Option<Job> {
    let all = register.running + jobs_of(register.ended);
    match place(all, id) {
        Some(at) => Some(all[at]),
        None => None,
    }
}

/// The first of some jobs with an identity.
fn position(jobs: &Vec<Job>, id: &str) -> (found: Option<usize>)
    ensures
        match found {
            Some(at) => at < jobs@.len() && place(jobs@, id@) == Some(at as int),
            None => place(jobs@, id@) is None,
        },
{
    let mut i: usize = 0;
    while i < jobs.len()
        invariant
            i <= jobs@.len(),
            forall|j: int| 0 <= j < i ==> (#[trigger] jobs@[j]).id@ != id@,
        decreases jobs@.len() - i,
    {
        if same_text(jobs[i].id.as_str(), id) {
            proof {
                lemma_place(jobs@, id@, i as int);
            }
            return Some(i);
        }
        i = i + 1;
    }
    proof {
        lemma_place(jobs@, id@, i as int);
    }
    None
}

impl Jobs {
    /// An empty register.
    pub fn new() -> (register: Self)
        ensures
            register@ == (JobsView { running: Seq::empty(), ended: Seq::empty() }),
    {
        Jobs { running: Vec::new(), ended: Vec::new() }
    }

    /// Registers a job under a given identity, started at a given Unix second.
    pub fn start_as(
        &mut self,
        id: String,
        at: u64,
        kind: JobKind,
        name: String,
        files_total: u64,
        bytes_total: u64,
    )
        ensures
            with_job(
                old(self)@,
                final(self)@,
                id@,
                at,
                kind,
                name,
                files_total,
                bytes_total,
            ),
    {
        let job = Job {
            id,
            kind,
            name,
            files_total,
            files_done: 0,
            bytes_total,
            bytes_done: 0,
            started_at: at,
            state: JobState::Running,
            issue: None,
        };
        proof {
            assert(started(job, id@, at, kind, name, files_total, bytes_total));
        }
        self.running.push(job);
    }

    /// Registers a new job and hands back its identity.
    pub fn start(&mut self, kind: JobKind, name: String, files_total: u64, bytes_total: u64) -> (id:
        String)
        ensures
            exists|value: u128| id@ == #[trigger] id_text(value),
            exists|at: u64| #[trigger]
                with_job(old(self)@, final(self)@, id@, at, kind, name, files_total, bytes_total),
    {
        let value = fresh_id();
        let id = write_id(value);
        let at = now_unix();
        self.start_as(id.clone(), at, kind, name, files_total, bytes_total);
        id
    }

    /// Everything worth showing: what is running, then what ended badly and has not
    /// been seen off yet. `now` is a monotonic reading in nanoseconds.
    pub fn list(&mut self, now: u64) -> (jobs: Vec<Job>)
        ensures
            final(self)@ == (JobsView { ended: shown(old(self)@.ended, now), ..old(self)@ }),
            jobs@ == old(self)@.running + jobs_of(shown(old(self)@.ended, now)),
    {
        let ghost before = self@;
        let mut left: Vec<(u64, Job)> = Vec::new();
        let mut jobs: Vec<Job> = Vec::new();
        let mut i: usize = 0;
        while i < self.running.len()
            invariant
                i <= self.running@.len(),
                self@ == before,
                jobs@ == before.running.subrange(0, i as int),
                left@ == Seq::<(u64, Job)>::empty(),
            decreases self.running@.len() - i,
        {
            proof {
                assert(before.running.subrange(0, i + 1) =~= before.running.subrange(
                    0,
                    i as int,
                ).push(before.running[i as int]));
            }
            jobs.push(self.running[i].clone());
            i = i + 1;
        }
        let ghost keep = |entry: (u64, Job)| fresh(entry.0, now);
        proof {
            assert(before.running.subrange(0, i as int) =~= before.running);
            assert(before.ended.subrange(0, 0) =~= Seq::<(u64, Job)>::empty());
            assert(Seq::<(u64, Job)>::empty().filter(keep) =~= Seq::<(u64, Job)>::empty()) by {
                reveal(Seq::filter);
            }
            assert(before.running + jobs_of(left@) =~= before.running);
        }
        let mut k: usize = 0;
        while k < self.ended.len()
            invariant
                k <= self.ended@.len(),
                self@ == before,
                keep == (|entry: (u64, Job)| fresh(entry.0, now)),
                left@ == before.ended.subrange(0, k as int).filter(keep),
                jobs@ == before.running + jobs_of(left@),
            decreases self.ended@.len() - k,
        {
            let at: u64 = self.ended[k].0;
            proof {
                let part = before.ended.subrange(0, k as int);
                let more = before.ended.subrange(0, k + 1);
                assert(more.drop_last() =~= part);
                assert(more.last() == before.ended[k as int]);
                reveal(Seq::filter);
            }
            if now < at || now - at < RETAIN_FOR {
                let job = self.ended[k].1.clone();
                let ghost earlier = left@;
                jobs.push(job.clone());
                left.push((at, job));
                proof {
                    assert(jobs_of(left@) =~= jobs_of(earlier).push(job));
                    assert(jobs@ =~= before.running + jobs_of(left@));
                }
            }
            k = k + 1;
        }
        proof {
            assert(before.ended.subrange(0, k as int) =~= before.ended);
        }
        self.ended = left;
        jobs
    }

    /// Stops a running job, or clears the record of one that already ended. The
    /// caller cancels the work where the answer is `Asked`.
    pub fn stop(&mut self, id: &str) -> (found: Stopped)
        ensures
            (final(self)@, found) == stopping(old(self)@, id@),
    {
        let ghost before = self@;
        if let Some(at) = position(&self.running, id) {
            let mut job = self.running[at].clone();
            job.state = JobState::Stopping;
            self.running.set(at, job);
            return Stopped::Asked;
        }
        let count: usize = self.ended.len();
        let mut left: Vec<(u64, Job)> = Vec::new();
        let mut k: usize = 0;
        let ghost keep = |entry: (u64, Job)| entry.1.id@ != id@;
        proof {
            assert(before.ended.subrange(0, 0) =~= Seq::<(u64, Job)>::empty());
            assert(Seq::<(u64, Job)>::empty().filter(keep) =~= Seq::<(u64, Job)>::empty()) by {
                reveal(Seq::filter);
            }
        }
        while k < self.ended.len()
            invariant
                k <= self.ended@.len(),
                self@ == before,
                keep == (|entry: (u64, Job)| entry.1.id@ != id@),
                left@ == before.ended.subrange(0, k as int).filter(keep),
            decreases self.ended@.len() - k,
        {
            proof {
                let part = before.ended.subrange(0, k as int);
                let more = before.ended.subrange(0, k + 1);
                assert(more.drop_last() =~= part);
                assert(more.last() == before.ended[k as int]);
                reveal(Seq::filter);
            }
            if !same_text(self.ended[k].1.id.as_str(), id) {
                left.push((self.ended[k].0, self.ended[k].1.clone()));
            }
            k = k + 1;
        }
        proof {
            assert(before.ended.subrange(0, k as int) =~= before.ended);
        }
        let gone = left.len() != count;
        self.ended = left;
        if gone {
            Stopped::Dismissed
        } else {
            Stopped::Unknown
        }
    }

    /// One job, running or retained.
    pub fn find(&self, id: &str) -> (found: Option<Job>)
        ensures
            found == found_in(self@, id@),
    {
        let ghost all = self@.running + jobs_of(self@.ended);
        let mut i: usize = 0;
        while i < self.running.len()
            invariant
                i <= self.running@.len(),
                all == self@.running + jobs_of(self@.ended),
                forall|j: int| 0 <= j < i ==> (#[trigger] all[j]).id@ != id@,
            decreases self.running@.len() - i,
        {
            proof {
                assert(all[i as int] == self.running@[i as int]);
            }
            if same_text(self.running[i].id.as_str(), id) {
                proof {
                    lemma_place(all, id@, i as int);
                }
                return Some(self.running[i].clone());
            }
            i = i + 1;
        }
        let mut k: usize = 0;
        while k < self.ended.len()
            invariant
                k <= self.ended@.len(),
                i == self.running@.len(),
                all == self@.running + jobs_of(self@.ended),
                forall|j: int| 0 <= j < i + k ==> (#[trigger] all[j]).id@ != id@,
            decreases self.ended@.len() - k,
        {
            proof {
                assert(all[i + k] == self.ended@[k as int].1);
            }
            if same_text(self.ended[k].1.id.as_str(), id) {
                proof {
                    lemma_place(all, id@, i + k);
                }
                return Some(self.ended[k].1.clone());
            }
            k = k + 1;
        }
        proof {
            lemma_place(all, id@, all.len() as int);
        }
        None
    }

    /// How many are still moving: the count that a tray or a banner shows.
    pub fn running(&self) -> (count: usize)
        ensures
            count == self@.running.len(),
    {
        self.running.len()
    }

    /// Records where the work has got to.
    pub fn advance(&mut self, id: &str, files_done: u64, bytes_done: u64)
        ensures
            final(self)@ == advanced(old(self)@, id@, files_done, bytes_done),
    {
        if let Some(at) = position(&self.running, id) {
            let mut job = self.running[at].clone();
            job.files_done = files_done;
            job.bytes_done = bytes_done;
            self.running.set(at, job);
        }
    }

    /// Ends a job at a monotonic reading in nanoseconds. One that did what it was
    /// asked has no outcome and leaves the register.
    pub fn end(&mut self, id: &str, now: u64, outcome: Option<Ended>)
        ensures
            final(self)@ == finished(old(self)@, id@, now, outcome),
    {
        if let Some(at) = position(&self.running, id) {
            let mut job = self.running.remove(at);
            if let Some(ended) = outcome {
                job.state = ended.state;
                job.issue = ended.issue;
                if self.ended.len() == RETAINED {
                    self.ended.remove(0);
                }
                self.ended.push((now, job));
            }
        }
    }

    /// Whether someone asked this job to stop. An account or a daemon that shuts
    /// down is not asking.
    pub fn asked_to_stop(&self, id: &str) -> (asked: bool)
        ensures
            asked == (match found_in(self@, id@) {
                Some(job) => job.state == JobState::Stopping,
                None => false,
            }),
    {
        match self.find(id) {
            Some(job) => job.state == JobState::Stopping,
            None => false,
        }
    }
}

/// A register that keeps at most the retained number of records goes on doing so.
pub proof fn records_stay_bounded(before: JobsView, id: Seq<char>, now: u64, outcome: Option<Ended>)
    requires
        before.ended.len() <= RETAINED,
    ensures
        finished(before, id, now, outcome).ended.len() <= RETAINED,
        stopping(before, id).0.ended.len() <= RETAINED,
        shown(before.ended, now).len() <= RETAINED,
{
    lemma_filter_shorter(before.ended, |entry: (u64, Job)| entry.1.id@ != id);
    lemma_filter_shorter(before.ended, |entry: (u64, Job)| fresh(entry.0, now));
}

/// A filtered sequence is no longer than the whole.
proof fn lemma_filter_shorter(entries: Seq<(u64, Job)>, keep: spec_fn((u64, Job)) -> bool)
    ensures
        entries.filter(keep).len() <= entries.len(),
    decreases entries.len(),
{
    reveal(Seq::filter);
    if entries.len() > 0 {
        lemma_filter_shorter(entries.drop_last(), keep);
    }
}

/// Stopping one job leaves every other as it was.
pub proof fn stopping_one_leaves_the_rest(before: JobsView, id: Seq<char>, other: int)
    requires
        0 <= other < before.running.len(),
        before.running[other].id@ != id,
    ensures
        stopping(before, id).0.running.len() == before.running.len(),
        stopping(before, id).0.running[other] == before.running[other],
{
    if place(before.running, id) is Some {
        lemma_place_names(before.running, id);
    }
}

/// The job at the place has the identity.
proof fn lemma_place_names(running: Seq<Job>, id: Seq<char>)
    requires
        place(running, id) is Some,
    ensures
        0 <= place(running, id)->0 < running.len(),
        running[place(running, id)->0].id@ == id,
    decreases running.len(),
{
    if running[0].id@ != id {
        lemma_place_names(running.drop_first(), id);
    }
}

/// A job that was started is running, with nothing done yet, behind those that were
/// started before it.
pub proof fn started_jobs_are_running(
    before: JobsView,
    after: JobsView,
    id: Seq<char>,
    at: u64,
    kind: JobKind,
    name: String,
    files_total: u64,
    bytes_total: u64,
)
    requires
        with_job(before, after, id, at, kind, name, files_total, bytes_total),
    ensures
        after.running.len() == before.running.len() + 1,
        forall|i: int| 0 <= i < before.running.len() ==> after.running[i] == before.running[i],
        after.ended == before.ended,
        ({
            let job = after.running.last();
            &&& job.id@ == id && job.kind == kind && job.name == name
            &&& job.files_total == files_total && job.bytes_total == bytes_total
            &&& job.files_done == 0 && job.bytes_done == 0 && job.started_at == at
            &&& job.state == JobState::Running && job.issue is None
        }),
{
}

/// Jobs of a register have different identities.
pub open spec fn told_apart(register: JobsView) -> bool {
    forall|i: int, j: int|
        0 <= i < j < register.running.len() ==> (#[trigger] register.running[i]).id@ != (
        #[trigger] register.running[j]).id@
}

/// What is asked of a running job reaches that job and no other: a stop marks it, progress
/// is written to it, and an end takes it out. One that ended badly stays behind with its
/// state and reason, for as long as it is to be shown; one that did what it was asked
/// leaves nothing.
pub proof fn requests_reach_the_job(
    before: JobsView,
    at: int,
    files_done: u64,
    bytes_done: u64,
    now: u64,
    outcome: Option<Ended>,
)
    requires
        told_apart(before),
        0 <= at < before.running.len(),
    ensures
        ({
            let job = before.running[at];
            let id = job.id@;
            &&& stopping(before, id).1 == Stopped::Asked
            &&& stopping(before, id).0.running == before.running.update(
                at,
                Job { state: JobState::Stopping, ..job },
            )
            &&& stopping(before, id).0.ended == before.ended
            &&& advanced(before, id, files_done, bytes_done).running == before.running.update(
                at,
                Job { files_done, bytes_done, ..job },
            )
            &&& advanced(before, id, files_done, bytes_done).ended == before.ended
            &&& finished(before, id, now, outcome).running == before.running.remove(at)
            &&& outcome is None ==> finished(before, id, now, outcome).ended == before.ended
            &&& outcome matches Some(end) ==> {
                let ended = finished(before, id, now, outcome).ended;
                &&& ended.len() > 0
                &&& ended.last() == (now, Job { state: end.state, issue: end.issue, ..job })
                &&& before.ended.len() < 4 ==> ended.len() == before.ended.len() + 1
                    && ended.drop_last() == before.ended
                &&& before.ended.len() == 4 ==> ended.len() == 4 && ended.drop_last()
                    == before.ended.drop_first()
            }
            &&& found_in(before, id) == Some(job)
        }),
{
    let id = before.running[at].id@;
    lemma_place(before.running, id, at);
    let all = before.running + jobs_of(before.ended);
    assert forall|i: int| 0 <= i < at implies (#[trigger] all[i]).id@ != id by {
        assert(all[i] == before.running[i]);
        assert(before.running[i].id@ != before.running[at].id@);
    }
    assert(all[at] == before.running[at]);
    lemma_place(all, id, at);
    if let Some(end) = outcome {
        let ended = finished(before, id, now, outcome).ended;
        if before.ended.len() == 4 {
            assert(ended.drop_last() =~= before.ended.drop_first());
        } else {
            assert(ended.drop_last() =~= before.ended);
        }
    }
}

/// A job that is not running is not touched. The record of one that ended is dismissed
/// when it is stopped, and what was never there is not known.
pub proof fn ended_jobs_can_be_dismissed(
    before: JobsView,
    id: Seq<char>,
    files_done: u64,
    bytes_done: u64,
    now: u64,
    outcome: Option<Ended>,
)
    requires
        forall|i: int| 0 <= i < before.running.len() ==> (#[trigger] before.running[i]).id@ != id,
    ensures
        advanced(before, id, files_done, bytes_done) == before,
        finished(before, id, now, outcome) == before,
        stopping(before, id).0.running == before.running,
        forall|entry: (u64, Job)| #[trigger]
            stopping(before, id).0.ended.contains(entry) <==> before.ended.contains(entry)
                && entry.1.id@ != id,
        (exists|i: int| 0 <= i < before.ended.len() && (#[trigger] before.ended[i]).1.id@ == id)
            ==> stopping(before, id).1 == Stopped::Dismissed,
        (forall|i: int| 0 <= i < before.ended.len() ==> (#[trigger] before.ended[i]).1.id@ != id)
            ==> stopping(before, id).1 == Stopped::Unknown && stopping(before, id).0 == before,
{
    lemma_place(before.running, id, before.running.len() as int);
    lemma_dismissed(before.ended, id);
}

/// What is kept of a sequence is what it holds and is wanted.
proof fn lemma_filter_contains(entries: Seq<(u64, Job)>, keep: spec_fn((u64, Job)) -> bool)
    ensures
        forall|entry: (u64, Job)| #[trigger]
            entries.filter(keep).contains(entry) <==> entries.contains(entry) && keep(entry),
    decreases entries.len(),
{
    reveal(Seq::filter);
    if entries.len() > 0 {
        let before = entries.drop_last();
        lemma_filter_contains(before, keep);
        assert forall|entry: (u64, Job)| #[trigger]
            entries.filter(keep).contains(entry) <==> entries.contains(entry) && keep(entry) by {
            if entries.filter(keep).contains(entry) {
                let k = choose|k: int|
                    0 <= k < entries.filter(keep).len() && entries.filter(keep)[k] == entry;
                if k < before.filter(keep).len() {
                    assert(before.filter(keep)[k] == entry);
                    assert(before.filter(keep).contains(entry));
                    let j = choose|j: int| 0 <= j < before.len() && before[j] == entry;
                    assert(entries[j] == entry);
                } else {
                    assert(entries[entries.len() - 1] == entry);
                }
            }
            if entries.contains(entry) && keep(entry) {
                let j = choose|j: int| 0 <= j < entries.len() && entries[j] == entry;
                if j < before.len() {
                    assert(before[j] == entry);
                    assert(before.filter(keep).contains(entry));
                    let k = choose|k: int|
                        0 <= k < before.filter(keep).len() && before.filter(keep)[k] == entry;
                    assert(entries.filter(keep)[k] == entry);
                } else {
                    assert(entries.filter(keep)[before.filter(keep).len() as int] == entry);
                }
            }
        }
    }
}

/// What is left of some records after one job was dismissed.
proof fn lemma_dismissed(ended: Seq<(u64, Job)>, id: Seq<char>)
    ensures
        forall|entry: (u64, Job)| #[trigger]
            dismissed(ended, id).contains(entry) <==> ended.contains(entry) && entry.1.id@ != id,
        dismissed(ended, id).len() <= ended.len(),
        dismissed(ended, id).len() == ended.len() <==> forall|i: int|
            0 <= i < ended.len() ==> (#[trigger] ended[i]).1.id@ != id,
        dismissed(ended, id).len() == ended.len() ==> dismissed(ended, id) == ended,
    decreases ended.len(),
{
    reveal(Seq::filter);
    if ended.len() > 0 {
        let before = ended.drop_last();
        let front = dismissed(before, id);
        let all = dismissed(ended, id);
        lemma_dismissed(before, id);
        assert(all == if ended.last().1.id@ != id {
            front.push(ended.last())
        } else {
            front
        });
        assert forall|entry: (u64, Job)| #[trigger]
            all.contains(entry) <==> ended.contains(entry) && entry.1.id@ != id by {
            if all.contains(entry) {
                let k = choose|k: int| 0 <= k < all.len() && all[k] == entry;
                if k < front.len() {
                    assert(front[k] == entry);
                    assert(front.contains(entry));
                    let j = choose|j: int| 0 <= j < before.len() && before[j] == entry;
                    assert(ended[j] == entry);
                } else {
                    assert(ended[ended.len() - 1] == entry);
                }
            }
            if ended.contains(entry) && entry.1.id@ != id {
                let j = choose|j: int| 0 <= j < ended.len() && ended[j] == entry;
                if j < before.len() {
                    assert(before[j] == entry);
                    assert(front.contains(entry));
                    let k = choose|k: int| 0 <= k < front.len() && front[k] == entry;
                    assert(all[k] == entry);
                } else {
                    assert(all[front.len() as int] == entry);
                }
            }
        }
        assert forall|i: int| 0 <= i < before.len() implies before[i] == ended[i] by {}
        if all.len() == ended.len() {
            assert(front == before);
            assert(before.push(ended.last()) =~= ended);
            assert forall|i: int| 0 <= i < ended.len() implies (#[trigger] ended[i]).1.id@
                != id by {
                if i < before.len() {
                    assert(before[i].1.id@ != id);
                }
            }
        }
        if forall|i: int| 0 <= i < ended.len() ==> (#[trigger] ended[i]).1.id@ != id {
            assert(ended[ended.len() - 1].1.id@ != id);
            assert forall|i: int| 0 <= i < before.len() implies (#[trigger] before[i]).1.id@
                != id by {
                assert(ended[i].1.id@ != id);
            }
        }
    }
}

/// A record is shown for ten minutes, and the records that are shown are those.
pub proof fn records_are_shown_for_ten_minutes(ended: Seq<(u64, Job)>, now: u64)
    ensures
        forall|entry: (u64, Job)| #[trigger]
            shown(ended, now).contains(entry) <==> ended.contains(entry) && (now < entry.0 || now
                - entry.0 < 600_000_000_000),
{
    lemma_filter_contains(ended, |entry: (u64, Job)| fresh(entry.0, now));
}

} // verus!
