//! Desired account state, mount ownership and status. Observation failures never
//! count as an ejection.
use crate::text::{characters, same_text};
use crate::words::{begins_with, begins};
use vstd::prelude::*;

verus! {

/// Shown while the table of mounts cannot be read.
pub const OBSERVATION_ERROR: &'static str = "mount observation unavailable";

/// Shown while the mount directory cannot be used.
pub const MOUNT_ERROR: &'static str = "mount unavailable; directory must be empty and unmounted";

/// The health of one change feed.
#[derive(Debug)]
pub struct FeedHealth {
    pub state: String,
}

/// What is reported of one account.
#[derive(Debug)]
pub struct AccountStatus {
    pub label: String,
    pub account: String,
    pub tenant: String,
    pub drive: String,
    pub mount_path: String,
    pub mounted: bool,
    pub state: String,
    pub feeds: Vec<FeedHealth>,
    pub indexed_feeds: u64,
    pub indexed_items: u64,
}

/// Some feed is in this state.
pub open spec fn some_feed(feeds: Seq<FeedHealth>, state: Seq<char>) -> bool {
    exists|i: int| 0 <= i < feeds.len() && (#[trigger] feeds[i]).state@ == state
}

/// Every feed is in this state.
pub open spec fn every_feed(feeds: Seq<FeedHealth>, state: Seq<char>) -> bool {
    forall|i: int| 0 <= i < feeds.len() ==> (#[trigger] feeds[i]).state@ == state
}

/// The word for the state of a running account.
pub open spec fn running_state(mount_error: Option<Seq<char>>, feeds: Seq<FeedHealth>) -> Seq<char> {
    match mount_error {
        Some(error) => error,
        None => if feeds.len() == 0 {
            "starting"@
        } else if some_feed(feeds, "sign_in_required"@) {
            "sign_in_required"@
        } else if !every_feed(feeds, "ready"@) {
            "updating_or_offline"@
        } else {
            "ready"@
        },
    }
}

/// The word for the state of a running account.
pub fn account_state(mount_error: &Option<String>, feeds: &Vec<FeedHealth>) -> (state: String)
    ensures
        state@ == running_state(crate::text::optional_view(*mount_error), feeds@),
{
    if let Some(error) = mount_error {
        return error.clone();
    }
    if feeds.len() == 0 {
        return "starting".to_string();
    }
    let mut sign_in = false;
    let mut ready = true;
    let mut i: usize = 0;
    while i < feeds.len()
        invariant
            i <= feeds@.len(),
            sign_in ==> some_feed(feeds@, "sign_in_required"@),
            !ready ==> !every_feed(feeds@, "ready"@),
            forall|j: int|
                #![trigger feeds@[j]]
                0 <= j < i ==> (feeds@[j].state@ == "sign_in_required"@ ==> sign_in) && (ready
                    ==> feeds@[j].state@ == "ready"@),
        decreases feeds@.len() - i,
    {
        if same_text(feeds[i].state.as_str(), "sign_in_required") {
            sign_in = true;
        }
        if !same_text(feeds[i].state.as_str(), "ready") {
            ready = false;
        }
        i = i + 1;
    }
    if sign_in {
        "sign_in_required".to_string()
    } else if !ready {
        "updating_or_offline".to_string()
    } else {
        "ready".to_string()
    }
}

/// The word for the state of an account that does not run.
pub fn idle_state(launch_failed: bool, enabled: bool) -> (state: &'static str)
    ensures
        state@ == (if launch_failed {
            "account_start_failed"@
        } else if enabled {
            "starting"@
        } else {
            "disabled"@
        }),
{
    if launch_failed {
        "account_start_failed"
    } else if enabled {
        "starting"
    } else {
        "disabled"
    }
}

/// A record of the table of mounts, as type and source.
pub open spec fn owned_record(record: Option<(String, String)>, id: Seq<char>) -> bool {
    match record {
        Some(pair) => pair.0@ == "fuse.cirrove"@ && pair.1@ == "cirrove:"@ + id,
        None => false,
    }
}

/// Whether a record of the table of mounts is this account's.
fn is_owned(record: &Option<(String, String)>, id: &str) -> (owned: bool)
    ensures
        owned == owned_record(*record, id@),
{
    match record {
        Some(pair) => {
            let mut source = "cirrove:".to_string();
            source.append(id);
            same_text(pair.0.as_str(), "fuse.cirrove") && same_text(
                pair.1.as_str(),
                source.as_str(),
            )
        },
        None => false,
    }
}

/// What to do about the mount of a running account.
#[derive(Clone, Copy, Debug, PartialEq, Eq, Structural)]
pub enum MountStep {
    /// It is mounted as it should be; `clear` says that an earlier observation error
    /// no longer stands.
    Keep { clear: bool },
    /// Nothing can be observed: keep the session until an observation proves that it
    /// was ejected.
    Wait,
    /// Release the session and mount again.
    Remount,
    /// It is not mounted, and the daemon is shutting down.
    Leave,
}

/// What is to be done about the mount of a running account. A mount of the same type
/// can be stale or belong to another account; only our own session with the matching
/// source counts as mounted.
pub open spec fn decided_step(
    observed: bool,
    session: bool,
    record: Option<(String, String)>,
    id: Seq<char>,
    error: Option<Seq<char>>,
    cancelled: bool,
) -> MountStep {
    if !observed {
        MountStep::Wait
    } else if session && owned_record(record, id) {
        MountStep::Keep { clear: error == Some(OBSERVATION_ERROR@) }
    } else if cancelled {
        MountStep::Leave
    } else {
        MountStep::Remount
    }
}

/// What to do about the mount of a running account.
pub fn mount_step(
    observed: bool,
    session: bool,
    record: &Option<(String, String)>,
    id: &str,
    error: &Option<String>,
    cancelled: bool,
) -> (step: MountStep)
    ensures
        step == decided_step(
            observed,
            session,
            *record,
            id@,
            crate::text::optional_view(*error),
            cancelled,
        ),
{
    if !observed {
        return MountStep::Wait;
    }
    if session && is_owned(record, id) {
        return MountStep::Keep { clear: crate::text::optional_is(error, OBSERVATION_ERROR) };
    }
    if cancelled {
        MountStep::Leave
    } else {
        MountStep::Remount
    }
}

/// What is shown of the mount once the step is taken: whether it is mounted, and the
/// error that stands. `remounted` says how a remount went.
pub open spec fn settled(
    step: MountStep,
    session: bool,
    remounted: bool,
    error: Option<Seq<char>>,
) -> (bool, Option<Seq<char>>) {
    match step {
        MountStep::Keep { clear } => (
            true,
            if clear {
                None
            } else {
                error
            },
        ),
        MountStep::Wait => (session, Some(OBSERVATION_ERROR@)),
        MountStep::Remount => (
            remounted,
            if remounted {
                None
            } else {
                Some(MOUNT_ERROR@)
            },
        ),
        MountStep::Leave => (false, error),
    }
}

/// What is shown of the mount once the step is taken.
pub fn settle_mount(step: MountStep, session: bool, remounted: bool, error: Option<String>) -> (shown: (
    bool,
    Option<String>,
))
    ensures
        (shown.0, crate::text::optional_view(shown.1)) == settled(
            step,
            session,
            remounted,
            crate::text::optional_view(error),
        ),
{
    match step {
        MountStep::Keep { clear } => (
            true,
            if clear {
                None
            } else {
                error
            },
        ),
        MountStep::Wait => (session, Some(OBSERVATION_ERROR.to_string())),
        MountStep::Remount => if remounted {
            (true, None)
        } else {
            (false, Some(MOUNT_ERROR.to_string()))
        },
        MountStep::Leave => (false, error),
    }
}

/// An observation that fails never ejects an account.
pub proof fn a_failed_observation_ejects_nothing(
    session: bool,
    record: Option<(String, String)>,
    id: Seq<char>,
    error: Option<Seq<char>>,
    cancelled: bool,
)
    ensures
        decided_step(false, session, record, id, error, cancelled) == MountStep::Wait,
        settled(MountStep::Wait, session, false, error).0 == session,
{
}

/// What to do about a mount that an earlier process left behind.
#[derive(Clone, Copy, Debug, PartialEq, Eq, Structural)]
pub enum LeftMount {
    /// The path is not mounted.
    Nothing,
    /// The path belongs to another filesystem or account.
    Foreign,
    /// It is this account's; it may be detached if it proves to be disconnected.
    Ours,
}

/// What to do about a mount that an earlier process left behind. Only this exact
/// account's mount is ever detached.
pub fn left_mount(record: &Option<(String, String)>, id: &str) -> (verdict: LeftMount)
    ensures
        verdict == (if record is None {
            LeftMount::Nothing
        } else if owned_record(*record, id@) {
            LeftMount::Ours
        } else {
            LeftMount::Foreign
        }),
{
    if record.is_none() {
        LeftMount::Nothing
    } else if is_owned(record, id) {
        LeftMount::Ours
    } else {
        LeftMount::Foreign
    }
}

/// A segment of the path is `..`, starting at this place.
pub open spec fn climbs_at(path: Seq<u8>, at: int) -> bool {
    &&& 0 <= at && at + 1 < path.len() && path[at] == 46 && path[at + 1] == 46
    &&& at == 0 || path[at - 1] == 47
    &&& at + 2 == path.len() || path[at + 2] == 47
}

/// The path is absolute and never climbs.
pub open spec fn normalized(path: Seq<u8>) -> bool {
    path.len() > 0 && path[0] == 47 && forall|at: int| !(#[trigger] climbs_at(path, at))
}

/// Whether a mount path is absolute and normalized.
pub fn is_normalized(path: &Vec<u8>) -> (fine: bool)
    ensures
        fine == normalized(path@),
{
    if path.len() == 0 || path[0] != 47 {
        return false;
    }
    let mut i: usize = 0;
    while i < path.len() - 1
        invariant
            i < path@.len(),
            path@[0] == 47,
            forall|at: int| at < i ==> !(#[trigger] climbs_at(path@, at)),
        decreases path@.len() - i,
    {
        if path[i] == 46 && path[i + 1] == 46 && (i == 0 || path[i - 1] == 47) && (i + 2
            == path.len() || path[i + 2] == 47) {
            proof {
                assert(climbs_at(path@, i as int));
            }
            return false;
        }
        i = i + 1;
    }
    true
}

/// What stands at a component of the mount path.
#[derive(Clone, Copy, Debug, PartialEq, Eq, Structural)]
pub enum Found {
    /// A real directory.
    Directory,
    /// A link, or something else.
    Other,
    /// Nothing.
    Missing,
}

/// What to do with a component of the mount path.
#[derive(Clone, Copy, Debug, PartialEq, Eq, Structural)]
pub enum ComponentStep {
    /// Go on.
    Pass,
    /// Create the directory.
    Create,
    /// The path would lie inside another FUSE mount.
    InsideMount,
    /// The path does not use real directories.
    NotDirectory,
}

/// What to do with a component of the mount path. `last` says that it is the mount
/// directory itself; `kind` is the type of the filesystem mounted there.
pub fn component_step(last: bool, kind: &Option<String>, found: Found) -> (step: ComponentStep)
    ensures
        step == (if !last && kind is Some && begins(kind->0@, "fuse"@) {
            ComponentStep::InsideMount
        } else {
            match found {
                Found::Directory => ComponentStep::Pass,
                Found::Other => ComponentStep::NotDirectory,
                Found::Missing => ComponentStep::Create,
            }
        }),
{
    if !last {
        if let Some(kind) = kind {
            if begins_with(&characters(kind.as_str()), &characters("fuse")) {
                return ComponentStep::InsideMount;
            }
        }
    }
    match found {
        Found::Directory => ComponentStep::Pass,
        Found::Other => ComponentStep::NotDirectory,
        Found::Missing => ComponentStep::Create,
    }
}

/// An account as the reconciliation sees it: its identity, its encoded configuration,
/// and whether it is to run.
#[derive(Debug)]
pub struct Configured {
    pub id: String,
    pub encoded: String,
    pub enabled: bool,
}

/// The configuration that is desired for an identity: the last one that is listed and
/// enabled.
pub open spec fn desired_form(desired: Seq<Configured>, id: Seq<char>) -> Option<Seq<char>>
    decreases desired.len(),
{
    if desired.len() == 0 {
        None
    } else if desired.last().enabled && desired.last().id@ == id {
        Some(desired.last().encoded@)
    } else {
        desired_form(desired.drop_last(), id)
    }
}

/// Some account has this identity.
pub open spec fn listed(accounts: Seq<Configured>, id: Seq<char>) -> bool {
    exists|i: int| 0 <= i < accounts.len() && (#[trigger] accounts[i]).id@ == id
}

/// Whether a running account is to be stopped: nobody wants it, or not with the
/// configuration it runs with.
pub fn must_stop(running: &Configured, desired: &Vec<Configured>) -> (stop: bool)
    ensures
        stop == (desired_form(desired@, running.id@) != Some(running.encoded@)),
{
    let mut i: usize = desired.len();
    proof {
        assert(desired@.subrange(0, i as int) =~= desired@);
    }
    while i > 0
        invariant
            i <= desired@.len(),
            desired_form(desired@, running.id@) == desired_form(
                desired@.subrange(0, i as int),
                running.id@,
            ),
        decreases i,
    {
        proof {
            let rest = desired@.subrange(0, i as int);
            assert(rest.last() == desired@[i - 1]);
            assert(rest.drop_last() =~= desired@.subrange(0, i - 1));
        }
        i = i - 1;
        if desired[i].enabled && same_text(desired[i].id.as_str(), running.id.as_str()) {
            return !same_text(desired[i].encoded.as_str(), running.encoded.as_str());
        }
    }
    true
}

/// Whether an account is to be launched: it is enabled and does not run yet.
pub fn must_launch(account: &Configured, running: &Vec<Configured>) -> (launch: bool)
    ensures
        launch == (account.enabled && !listed(running@, account.id@)),
{
    if !account.enabled {
        return false;
    }
    let mut i: usize = 0;
    while i < running.len()
        invariant
            i <= running@.len(),
            forall|j: int| 0 <= j < i ==> (#[trigger] running@[j]).id@ != account.id@,
        decreases running@.len() - i,
    {
        if running[i].id == account.id {
            return false;
        }
        i = i + 1;
    }
    true
}

/// The running accounts that are to be stopped, by their place.
pub open spec fn stopping(running: Seq<Configured>, desired: Seq<Configured>) -> Seq<int>
    decreases running.len(),
{
    if running.len() == 0 {
        Seq::empty()
    } else {
        let before = stopping(running.drop_last(), desired);
        if desired_form(desired, running.last().id@) != Some(running.last().encoded@) {
            before.push(running.len() - 1)
        } else {
            before
        }
    }
}

/// The running accounts that are to be stopped, by their place.
pub fn to_stop(running: &Vec<Configured>, desired: &Vec<Configured>) -> (places: Vec<usize>)
    ensures
        places@.len() == stopping(running@, desired@).len(),
        forall|i: int|
            0 <= i < places@.len() ==> #[trigger] places@[i] == stopping(running@, desired@)[i],
{
    let mut places: Vec<usize> = Vec::new();
    let mut i: usize = 0;
    proof {
        assert(running@.subrange(0, 0) =~= Seq::<Configured>::empty());
    }
    while i < running.len()
        invariant
            i <= running@.len(),
            places@.len() == stopping(running@.subrange(0, i as int), desired@).len(),
            forall|j: int|
                0 <= j < places@.len() ==> #[trigger] places@[j] == stopping(
                    running@.subrange(0, i as int),
                    desired@,
                )[j],
        decreases running@.len() - i,
    {
        proof {
            let more = running@.subrange(0, i + 1);
            assert(more.drop_last() =~= running@.subrange(0, i as int));
            assert(more.last() == running@[i as int]);
        }
        if must_stop(&running[i], desired) {
            places.push(i);
        }
        i = i + 1;
    }
    proof {
        assert(running@.subrange(0, i as int) =~= running@);
    }
    places
}

/// What is known of an account apart from its state.
#[derive(Debug)]
pub struct AccountDetails {
    pub label: String,
    pub account: String,
    pub tenant: String,
    pub drive: String,
    pub mount_path: String,
    pub enabled: bool,
}

/// What was observed of an account.
#[derive(Debug)]
pub enum Observation {
    /// It does not run; its launch may have failed.
    Idle { launch_failed: bool },
    /// It runs. `counts` are its indexed feeds and items, where they could be read.
    Running {
        mounted: bool,
        mount_error: Option<String>,
        feeds: Vec<FeedHealth>,
        counts: Option<(u64, u64)>,
    },
}

/// What is reported of one account.
pub fn report(details: AccountDetails, observed: Observation) -> (status: AccountStatus)
    ensures
        status.label == details.label,
        status.account == details.account,
        status.tenant == details.tenant,
        status.drive == details.drive,
        status.mount_path == details.mount_path,
        match observed {
            Observation::Idle { launch_failed } => {
                &&& !status.mounted
                &&& status.feeds@.len() == 0
                &&& status.indexed_feeds == 0 && status.indexed_items == 0
                &&& status.state@ == (if launch_failed {
                    "account_start_failed"@
                } else if details.enabled {
                    "starting"@
                } else {
                    "disabled"@
                })
            },
            Observation::Running { mounted, mount_error, feeds, counts } => {
                &&& status.mounted == mounted
                &&& status.feeds == feeds
                &&& (status.indexed_feeds, status.indexed_items) == (match counts {
                    Some(pair) => pair,
                    None => (0u64, 0u64),
                })
                &&& status.state@ == running_state(crate::text::optional_view(mount_error), feeds@)
            },
        },
{
    match observed {
        Observation::Idle { launch_failed } => {
            let state = idle_state(launch_failed, details.enabled).to_string();
            AccountStatus {
                label: details.label,
                account: details.account,
                tenant: details.tenant,
                drive: details.drive,
                mount_path: details.mount_path,
                mounted: false,
                state,
                feeds: Vec::new(),
                indexed_feeds: 0,
                indexed_items: 0,
            }
        },
        Observation::Running { mounted, mount_error, feeds, counts } => {
            let state = account_state(&mount_error, &feeds);
            let (indexed_feeds, indexed_items) = match counts {
                Some(pair) => pair,
                None => (0u64, 0u64),
            };
            AccountStatus {
                label: details.label,
                account: details.account,
                tenant: details.tenant,
                drive: details.drive,
                mount_path: details.mount_path,
                mounted,
                state,
                feeds,
                indexed_feeds,
                indexed_items,
            }
        },
    }
}

/// The word for a running account says the worst that is known of it: an error of its
/// mount, then a sign-in that is needed, then a feed that is not ready. It is ready only
/// where nothing is wrong and something is there to be ready.
pub proof fn accounts_are_ready_when_every_feed_is(
    error: Seq<char>,
    feeds: Seq<FeedHealth>,
    i: int,
)
    requires
        0 <= i < feeds.len(),
    ensures
        running_state(Some(error), feeds) == error,
        running_state(None, Seq::<FeedHealth>::empty()) == "starting"@,
        feeds[i].state@ == "sign_in_required"@ ==> running_state(None, feeds)
            == "sign_in_required"@,
        running_state(None, feeds) == "ready"@ ==> feeds[i].state@ == "ready"@,
        (forall|j: int| 0 <= j < feeds.len() ==> (#[trigger] feeds[j]).state@ == "ready"@)
            ==> running_state(None, feeds) == "ready"@,
        feeds[i].state@ != "ready"@ && (forall|j: int|
            0 <= j < feeds.len() ==> (#[trigger] feeds[j]).state@ != "sign_in_required"@)
            ==> running_state(None, feeds) == "updating_or_offline"@,
{
    reveal_strlit("sign_in_required");
    reveal_strlit("ready");
    reveal_strlit("updating_or_offline");
    reveal_strlit("starting");
    assert("ready"@ != "sign_in_required"@) by {
        assert("ready"@.len() == 5);
        assert("sign_in_required"@.len() == 16);
    }
    assert("ready"@ != "updating_or_offline"@) by {
        assert("ready"@.len() == 5);
        assert("updating_or_offline"@.len() == 19);
    }
}

/// Only this account's own session with its own record counts as mounted; with it nothing
/// is done. Anything else that can be observed is mounted again, unless the daemon is
/// shutting down.
pub proof fn lost_mounts_are_mounted_again(
    session: bool,
    kind: String,
    source: String,
    id: Seq<char>,
    error: Option<Seq<char>>,
    cancelled: bool,
)
    ensures
        ({
            let ours = kind@ == "fuse.cirrove"@ && source@ == "cirrove:"@ + id;
            let step = decided_step(true, session, Some((kind, source)), id, error, cancelled);
            &&& step is Keep <==> session && ours
            &&& step == MountStep::Remount <==> !(session && ours) && !cancelled
            &&& step == MountStep::Leave <==> !(session && ours) && cancelled
        }),
        decided_step(true, session, None, id, error, false) == MountStep::Remount,
        decided_step(true, session, None, id, error, true) == MountStep::Leave,
{
}

/// What is shown of a mount: it is mounted exactly where it was kept, mounted again, or
/// could not be looked at while a session is there. A mount that could not be made says
/// so, one that was made has no error, and an error of looking goes away with a look.
pub proof fn mounts_are_shown_as_they_are(
    session: bool,
    remounted: bool,
    error: Option<Seq<char>>,
    clear: bool,
)
    ensures
        settled(MountStep::Keep { clear }, session, remounted, error).0,
        settled(MountStep::Keep { clear }, session, remounted, error).1 == (if clear {
            None::<Seq<char>>
        } else {
            error
        }),
        settled(MountStep::Remount, session, remounted, error).0 == remounted,
        settled(MountStep::Remount, session, remounted, error).1 is None <==> remounted,
        !settled(MountStep::Leave, session, remounted, error).0,
        settled(MountStep::Wait, session, remounted, error).0 == session,
        settled(MountStep::Wait, session, remounted, error).1 is Some,
{
}

/// An account runs with the configuration that is listed last for it among the enabled
/// ones, and with none where no enabled one is listed.
pub proof fn accounts_run_as_they_are_configured(desired: Seq<Configured>, id: Seq<char>, i: int)
    ensures
        (0 <= i < desired.len() && desired[i].enabled && desired[i].id@ == id && forall|j: int|
            i < j < desired.len() ==> !((#[trigger] desired[j]).enabled && desired[j].id@ == id))
            ==> desired_form(desired, id) == Some(desired[i].encoded@),
        (forall|j: int|
            0 <= j < desired.len() ==> !((#[trigger] desired[j]).enabled && desired[j].id@ == id))
            ==> desired_form(desired, id) is None,
    decreases desired.len(),
{
    if desired.len() > 0 {
        let before = desired.drop_last();
        assert(desired.last() == desired[desired.len() - 1]);
        assert forall|j: int| 0 <= j < before.len() implies before[j] == desired[j] by {}
        accounts_run_as_they_are_configured(before, id, i);
        if !(desired.last().enabled && desired.last().id@ == id) {
            if 0 <= i < desired.len() - 1 {
                assert(before[i] == desired[i]);
            }
        }
    }
}

/// Exactly those running accounts are stopped that nobody wants any more, or not with the
/// configuration that they run with.
pub proof fn unwanted_accounts_are_stopped(
    running: Seq<Configured>,
    desired: Seq<Configured>,
    at: int,
)
    ensures
        stopping(running, desired).contains(at) <==> 0 <= at < running.len() && desired_form(
            desired,
            running[at].id@,
        ) != Some(running[at].encoded@),
    decreases running.len(),
{
    if running.len() > 0 {
        let before = running.drop_last();
        unwanted_accounts_are_stopped(before, desired, at);
        let all = stopping(running, desired);
        let some = stopping(before, desired);
        if some.contains(at) {
            let k = choose|k: int| 0 <= k < some.len() && some[k] == at;
            assert(all[k] == at);
            assert(before[at] == running[at]);
        }
        if all.contains(at) {
            let k = choose|k: int| 0 <= k < all.len() && all[k] == at;
            if k < some.len() {
                assert(some[k] == at);
                assert(before[at] == running[at]);
            }
        }
        if at == running.len() - 1 && desired_form(desired, running[at].id@) != Some(
            running[at].encoded@,
        ) {
            assert(all[some.len() as int] == at);
        }
        if 0 <= at < before.len() {
            assert(before[at] == running[at]);
        }
    }
}

} // verus!
