//! The control socket: the framing of requests, what each verb asks for, and the
//! replies that need no account to be given.
use crate::manager::AccountStatus;
use crate::text::{characters, push_char, read_text, same_text, text_from, white};
use crate::words::{
    single_characters_split, split_at_first, split_once, trim, trimmed_end, trimmed_start,
};
use vstd::prelude::*;
use vstd::utf8::{decode_utf8, valid_utf8};

verus! {

/// Version of the `status` reply that desktop clients compare for equality.
pub const STATUS_PROTOCOL_VERSION: u32 = 1;

/// Version of the event stream that `capabilities` names.
pub const EVENT_PROTOCOL_VERSION: u32 = 1;

/// How many bytes a request line may hold.
pub const REQUEST_LIMIT: usize = 8192;

/// How many bytes a reply may hold.
pub const REPLY_LIMIT: usize = 1_048_576;

/// Request slots that a long-lived subscriber can never consume.
pub const REQUEST_SLOTS: usize = 16;

/// Concurrent subscriptions.
pub const SUBSCRIPTION_SLOTS: usize = 8;

/// What the daemon reports of itself.
#[derive(Debug)]
pub struct Status {
    pub protocol_version: u32,
    pub version: String,
    pub milestone: String,
    pub indexed_feeds: u64,
    pub indexed_items: u64,
    pub active_mounts: u64,
    pub accounts: Vec<AccountStatus>,
    /// How many times this process has returned free pages to the kernel.
    pub allocator_trims: u64,
    /// How much the allocator is holding free right now.
    pub free_arena_bytes: u64,
    /// Resident memory that is not live heap: what a trim could return.
    pub retained_bytes: u64,
}

/// What a client wants pinned.
#[derive(Debug)]
pub struct PinRequest {
    /// Account label. Empty means the only account.
    pub label: String,
    /// Provider item. Exactly one of `item` or `path` must be set.
    pub item: Option<String>,
    /// Path below the mount, resolved by the daemon.
    pub path: Option<String>,
    pub recursive: bool,
    /// Bytes to reserve. `None` means that the daemon decides.
    pub bytes: Option<u64>,
}

/// What the daemon actually did, as opposed to what was asked for.
#[derive(Debug)]
pub struct PinReply {
    pub accepted: bool,
    pub item: String,
    pub reserved: u64,
    /// Files that the walk found. Zero for a single file.
    pub files: u64,
    /// False when part of the subtree is not indexed yet.
    pub complete: bool,
    /// Why the request was refused, in words that a user can act on.
    pub refusal: Option<String>,
}

impl Default for PinRequest {
    fn default() -> (request: Self)
        ensures
            request.label@ == Seq::<char>::empty(),
            request.item is None,
            request.path is None,
            !request.recursive,
            request.bytes is None,
    {
        PinRequest {
            label: String::new(),
            item: None,
            path: None,
            recursive: false,
            bytes: None,
        }
    }
}

impl Default for PinReply {
    fn default() -> (reply: Self)
        ensures
            !reply.accepted,
            reply.item@ == Seq::<char>::empty(),
            reply.reserved == 0,
            reply.files == 0,
            !reply.complete,
            reply.refusal is None,
    {
        PinReply {
            accepted: false,
            item: String::new(),
            reserved: 0,
            files: 0,
            complete: false,
            refusal: None,
        }
    }
}

/// A reply that only refuses.
pub open spec fn refuses(reply: PinReply, reason: Seq<char>) -> bool {
    &&& !reply.accepted
    &&& reply.item@ == Seq::<char>::empty()
    &&& reply.reserved == 0
    &&& reply.files == 0
    &&& !reply.complete
    &&& reply.refusal is Some
    &&& reply.refusal->0@ == reason
}

/// A reply that only refuses.
pub fn refusal(reason: String) -> (reply: PinReply)
    ensures
        refuses(reply, reason@),
{
    PinReply {
        accepted: false,
        item: String::new(),
        reserved: 0,
        files: 0,
        complete: false,
        refusal: Some(reason),
    }
}

/// What this daemon can do beyond `status`, asked for by name. Each capability
/// carries its own version; no name occurs twice.
#[derive(Debug)]
pub struct Capabilities {
    pub capabilities: Vec<(String, u32)>,
}

/// The version of the first capability with a name.
pub open spec fn version_of(all: Seq<(String, u32)>, name: Seq<char>) -> Option<u32>
    decreases all.len(),
{
    if all.len() == 0 {
        None
    } else if all[0].0@ == name {
        Some(all[0].1)
    } else {
        version_of(all.drop_first(), name)
    }
}

impl Default for Capabilities {
    fn default() -> (none: Self)
        ensures
            none.capabilities@.len() == 0,
    {
        Capabilities { capabilities: Vec::new() }
    }
}

impl Capabilities {
    /// Whether this daemon can stream events, and at which version.
    pub fn events(&self) -> (version: Option<u32>)
        ensures
            version == version_of(self.capabilities@, "events"@),
    {
        let mut i: usize = 0;
        let ghost all = self.capabilities@;
        proof {
            assert(all.subrange(0, all.len() as int) =~= all);
        }
        while i < self.capabilities.len()
            invariant
                i <= all.len(),
                all == self.capabilities@,
                version_of(all, "events"@) == version_of(
                    all.subrange(i as int, all.len() as int),
                    "events"@,
                ),
            decreases all.len() - i,
        {
            proof {
                let rest = all.subrange(i as int, all.len() as int);
                assert(rest[0] == all[i as int]);
                assert(rest.drop_first() =~= all.subrange(i + 1, all.len() as int));
            }
            if same_text(self.capabilities[i].0.as_str(), "events") {
                return Some(self.capabilities[i].1);
            }
            i = i + 1;
        }
        None
    }

    /// What this build can do.
    pub fn current() -> (all: Self)
        ensures
            all.capabilities@.len() == 1,
            all.capabilities@[0].0@ == "events"@,
            all.capabilities@[0].1 == EVENT_PROTOCOL_VERSION,
            version_of(all.capabilities@, "events"@) == Some(EVENT_PROTOCOL_VERSION),
    {
        let mut capabilities: Vec<(String, u32)> = Vec::new();
        capabilities.push(("events".to_string(), EVENT_PROTOCOL_VERSION));
        Capabilities { capabilities }
    }
}

/// A client that is told an older daemon's empty answer learns that it cannot
/// stream; it needs no branch on the refusal's words.
pub proof fn an_empty_answer_streams_nothing(none: Capabilities)
    requires
        none.capabilities@.len() == 0,
    ensures
        version_of(none.capabilities@, "events"@) is None,
{
}

/// What the next byte of a request line means.
#[derive(Clone, Copy, Debug, PartialEq, Eq, Structural)]
pub enum LineStep {
    /// The line goes on.
    More,
    /// The line is complete.
    Done,
    /// The line is longer than a request may be.
    Oversized,
}

/// A request line being read, byte by byte.
#[derive(Debug)]
pub struct RequestLine {
    pub bytes: Vec<u8>,
}

impl RequestLine {
    /// Nothing read yet.
    pub fn new() -> (line: Self)
        ensures
            line.bytes@ == Seq::<u8>::empty(),
    {
        RequestLine { bytes: Vec::new() }
    }

    /// Takes in the next byte. A client that sends no line feed, or more than the
    /// limit, gets an error rather than a daemon that allocates for it.
    pub fn push(&mut self, byte: u8) -> (step: LineStep)
        requires
            old(self).bytes@.len() <= REQUEST_LIMIT,
        ensures
            byte == 10 ==> step == LineStep::Done && final(self).bytes@ == old(self).bytes@,
            byte != 10 ==> final(self).bytes@ == old(self).bytes@.push(byte) && step == (
            if old(self).bytes@.len() == REQUEST_LIMIT {
                LineStep::Oversized
            } else {
                LineStep::More
            }),
    {
        if byte == 10 {
            return LineStep::Done;
        }
        self.bytes.push(byte);
        if self.bytes.len() > REQUEST_LIMIT {
            LineStep::Oversized
        } else {
            LineStep::More
        }
    }

    /// The text of a complete line. `None` says that it is not UTF-8.
    pub fn text(&self) -> (text: Option<String>)
        ensures
            match text {
                Some(text) => valid_utf8(self.bytes@) && text@ == decode_utf8(self.bytes@),
                None => !valid_utf8(self.bytes@),
            },
    {
        read_text(self.bytes.as_slice())
    }
}

/// The verb and the body of a request line.
pub open spec fn verb_and_body(line: Seq<char>) -> (Seq<char>, Seq<char>) {
    match split_at_first(line, " "@) {
        Some(halves) => (halves.0, trimmed_end(trimmed_start(halves.1))),
        None => (line, Seq::empty()),
    }
}

/// The verb and the body of a request line.
pub fn split_request(line: &str) -> (halves: (String, String))
    ensures
        (halves.0@, halves.1@) == verb_and_body(line@),
{
    let chars = characters(line);
    match split_once(&chars, &characters(" ")) {
        Some((verb, body)) => (text_from(&verb), text_from(&trim(&body))),
        None => (text_from(&chars), String::new()),
    }
}

/// What a request asks the daemon to do.
#[derive(Debug)]
pub enum Asked {
    /// Hold the connection open and write changes as they happen.
    Subscribe,
    /// Say what this daemon can do.
    Capabilities,
    /// Report the status.
    Status,
    /// Pin what the body names.
    Pin,
    /// Release what the body names.
    Unpin,
    /// Answer with this refusal.
    Refuse(String),
}

/// The text as the standard library's debug form quotes it.
pub uninterp spec fn quoted(text: Seq<char>) -> Seq<char>;

/// Formats a text with the standard library's debug form of `str`, which puts it in
/// double quotes and escapes what could not be read otherwise. The result is named
/// `quoted`.
#[verifier::external_body]
fn quote(text: &str) -> (written: String)
    ensures
        written@ == quoted(text@),
{
    format!("{text:?}")
}

/// What a verb asks for. A daemon without accounts refuses what needs one.
pub open spec fn asks(verb: Seq<char>, managed: bool, asked: Asked) -> bool {
    if verb == "subscribe"@ {
        if managed {
            asked is Subscribe
        } else {
            asked matches Asked::Refuse(reason) && reason@ == "this daemon manages no accounts"@
        }
    } else if verb == "capabilities"@ {
        asked is Capabilities
    } else if verb == "status"@ {
        asked is Status
    } else if !managed {
        asked matches Asked::Refuse(reason) && reason@ == "this daemon manages no accounts"@
    } else if verb == "pin"@ {
        asked is Pin
    } else if verb == "unpin"@ {
        asked is Unpin
    } else {
        asked matches Asked::Refuse(reason) && reason@ == "unknown control request "@ + quoted(verb)
    }
}

/// What a verb asks for.
pub fn route(verb: &str, managed: bool) -> (asked: Asked)
    ensures
        asks(verb@, managed, asked),
{
    if same_text(verb, "subscribe") {
        if managed {
            return Asked::Subscribe;
        }
        return Asked::Refuse("this daemon manages no accounts".to_string());
    }
    if same_text(verb, "capabilities") {
        return Asked::Capabilities;
    }
    if same_text(verb, "status") {
        return Asked::Status;
    }
    if !managed {
        return Asked::Refuse("this daemon manages no accounts".to_string());
    }
    if same_text(verb, "pin") {
        return Asked::Pin;
    }
    if same_text(verb, "unpin") {
        return Asked::Unpin;
    }
    let mut reason = "unknown control request ".to_string();
    reason.append(quote(verb).as_str());
    Asked::Refuse(reason)
}

/// Whether another connection is taken in.
pub fn accepts_connection(open: usize) -> (accepted: bool)
    ensures
        accepted == (open < REQUEST_SLOTS + SUBSCRIPTION_SLOTS),
{
    open < REQUEST_SLOTS + SUBSCRIPTION_SLOTS
}

/// However many subscriptions there are, every request slot is left.
pub proof fn subscriptions_never_starve_requests(subscriptions: int, requests: int)
    requires
        0 <= subscriptions <= SUBSCRIPTION_SLOTS,
        0 <= requests < REQUEST_SLOTS,
    ensures
        subscriptions + requests < REQUEST_SLOTS + SUBSCRIPTION_SLOTS,
{
}

/// The line that carries a verb and its encoded body.
pub open spec fn request_text(verb: Seq<char>, body: Option<Seq<char>>) -> Seq<char> {
    match body {
        Some(body) => verb.push(' ') + body + seq!['\n'],
        None => verb.push('\n'),
    }
}

/// The line that carries a verb and its encoded body.
pub fn write_request(verb: &str, body: Option<&str>) -> (line: String)
    ensures
        line@ == request_text(
            verb@,
            match body {
                Some(text) => Some(text@),
                None => None,
            },
        ),
{
    let mut line = verb.to_string();
    if let Some(body) = body {
        push_char(&mut line, ' ');
        line.append(body);
    }
    push_char(&mut line, '\n');
    proof {
        match body {
            Some(text) => {
                assert(line@ =~= verb@.push(' ') + text@ + seq!['\n']);
            },
            None => {},
        }
    }
    line
}

/// Whether a reply is within the limit.
pub fn reply_fits(length: usize) -> (fits: bool)
    ensures
        fits == (length <= REPLY_LIMIT),
{
    length <= REPLY_LIMIT
}

/// The sum of what the accounts indexed.
pub open spec fn indexed(accounts: Seq<AccountStatus>) -> (int, int)
    decreases accounts.len(),
{
    if accounts.len() == 0 {
        (0, 0)
    } else {
        let before = indexed(accounts.drop_last());
        (
            before.0 + accounts.last().indexed_feeds,
            before.1 + accounts.last().indexed_items,
        )
    }
}

/// How many accounts are mounted.
pub open spec fn mounted_count(accounts: Seq<AccountStatus>) -> int
    decreases accounts.len(),
{
    if accounts.len() == 0 {
        0
    } else {
        mounted_count(accounts.drop_last()) + (if accounts.last().mounted {
            1int
        } else {
            0
        })
    }
}

proof fn lemma_indexed_grows(accounts: Seq<AccountStatus>, i: int)
    requires
        0 <= i <= accounts.len(),
    ensures
        0 <= indexed(accounts.subrange(0, i)).0 <= indexed(accounts).0,
        0 <= indexed(accounts.subrange(0, i)).1 <= indexed(accounts).1,
        0 <= mounted_count(accounts.subrange(0, i)) <= i,
    decreases accounts.len() - i, i,
{
    if i < accounts.len() {
        lemma_indexed_grows(accounts, i + 1);
        assert(accounts.subrange(0, i + 1).drop_last() =~= accounts.subrange(0, i));
    } else {
        assert(accounts.subrange(0, i) =~= accounts);
    }
    lemma_indexed_nonnegative(accounts.subrange(0, i));
}

proof fn lemma_indexed_nonnegative(accounts: Seq<AccountStatus>)
    ensures
        0 <= indexed(accounts).0,
        0 <= indexed(accounts).1,
        0 <= mounted_count(accounts) <= accounts.len(),
    decreases accounts.len(),
{
    if accounts.len() > 0 {
        lemma_indexed_nonnegative(accounts.drop_last());
    }
}

/// The sums over the accounts: feeds, items and mounts.
pub fn totals(accounts: &Vec<AccountStatus>) -> (sums: (u64, u64, u64))
    requires
        indexed(accounts@).0 <= u64::MAX,
        indexed(accounts@).1 <= u64::MAX,
    ensures
        sums.0 == indexed(accounts@).0,
        sums.1 == indexed(accounts@).1,
        sums.2 == mounted_count(accounts@),
{
    let mut feeds: u64 = 0;
    let mut items: u64 = 0;
    let mut mounts: u64 = 0;
    let mut i: usize = 0;
    proof {
        assert(accounts@.subrange(0, 0) =~= Seq::<AccountStatus>::empty());
    }
    while i < accounts.len()
        invariant
            i <= accounts@.len(),
            indexed(accounts@).0 <= u64::MAX,
            indexed(accounts@).1 <= u64::MAX,
            feeds == indexed(accounts@.subrange(0, i as int)).0,
            items == indexed(accounts@.subrange(0, i as int)).1,
            mounts == mounted_count(accounts@.subrange(0, i as int)),
            mounts <= i,
        decreases accounts@.len() - i,
    {
        proof {
            let more = accounts@.subrange(0, i + 1);
            assert(more.drop_last() =~= accounts@.subrange(0, i as int));
            assert(more.last() == accounts@[i as int]);
            lemma_indexed_grows(accounts@, i + 1);
        }
        feeds = feeds + accounts[i].indexed_feeds;
        items = items + accounts[i].indexed_items;
        if accounts[i].mounted {
            mounts = mounts + 1;
        }
        i = i + 1;
    }
    proof {
        assert(accounts@.subrange(0, i as int) =~= accounts@);
    }
    (feeds, items, mounts)
}

/// The status of a daemon. One that manages accounts reports what they indexed; one
/// that does not reports the counts of its own index.
pub fn assemble_status(
    version: String,
    counts: (u64, u64),
    managed: Option<Vec<AccountStatus>>,
    allocator_trims: u64,
    free_arena_bytes: u64,
    retained_bytes: u64,
) -> (status: Status)
    requires
        managed is Some ==> indexed(managed->0@).0 <= u64::MAX && indexed(managed->0@).1
            <= u64::MAX,
    ensures
        status.protocol_version == STATUS_PROTOCOL_VERSION,
        status.version == version,
        status.milestone@ == "readonly-preview"@,
        status.allocator_trims == allocator_trims,
        status.free_arena_bytes == free_arena_bytes,
        status.retained_bytes == retained_bytes,
        match managed {
            Some(accounts) => status.accounts == accounts && status.indexed_feeds == indexed(
                accounts@,
            ).0 && status.indexed_items == indexed(accounts@).1 && status.active_mounts
                == mounted_count(accounts@),
            None => status.accounts@.len() == 0 && status.indexed_feeds == counts.0
                && status.indexed_items == counts.1 && status.active_mounts == 0,
        },
{
    let (accounts, feeds, items, mounts) = match managed {
        Some(accounts) => {
            let (feeds, items, mounts) = totals(&accounts);
            (accounts, feeds, items, mounts)
        },
        None => (Vec::new(), counts.0, counts.1, 0u64),
    };
    Status {
        protocol_version: STATUS_PROTOCOL_VERSION,
        version,
        milestone: "readonly-preview".to_string(),
        indexed_feeds: feeds,
        indexed_items: items,
        active_mounts: mounts,
        accounts,
        allocator_trims,
        free_arena_bytes,
        retained_bytes,
    }
}

/// A path made of a base and a relative rest, as the standard library joins them.
pub open spec fn joined(base: Seq<u8>, rest: Seq<u8>) -> Seq<u8> {
    if base.len() == 0 || base.last() == 47 {
        base + rest
    } else {
        base.push(47) + rest
    }
}

/// A path made of a base and a relative rest.
fn join(base: Vec<u8>, rest: &Vec<u8>) -> (path: Vec<u8>)
    ensures
        path@ == joined(base@, rest@),
{
    let mut path = base;
    let ghost whole = joined(base@, rest@);
    if path.len() > 0 && path[path.len() - 1] != 47 {
        path.push(47);
    }
    let ghost start = path@;
    let mut i: usize = 0;
    while i < rest.len()
        invariant
            i <= rest@.len(),
            path@ == start + rest@.subrange(0, i as int),
        decreases rest@.len() - i,
    {
        proof {
            assert(rest@.subrange(0, i + 1) =~= rest@.subrange(0, i as int).push(rest@[i as int]));
            assert(start + rest@.subrange(0, i + 1) =~= (start + rest@.subrange(0, i as int)).push(
                rest@[i as int],
            ));
        }
        path.push(rest[i]);
        i = i + 1;
    }
    proof {
        assert(rest@.subrange(0, i as int) =~= rest@);
    }
    path
}

/// Why a standard directory cannot be used.
#[derive(Clone, Copy, Debug, PartialEq, Eq, Structural)]
pub enum DirectoryError {
    /// The environment does not name one.
    Unset,
    /// It is not absolute.
    Relative,
}

/// The path is absolute.
pub open spec fn absolute(path: Seq<u8>) -> bool {
    path.len() > 0 && path[0] == 47
}

/// The bytes of `cirrove`.
pub open spec fn own_name() -> Seq<u8> {
    seq![99u8, 105, 114, 114, 111, 118, 101]
}

/// The bytes of `.local/state`.
pub open spec fn local_state() -> Seq<u8> {
    seq![46u8, 108, 111, 99, 97, 108, 47, 115, 116, 97, 116, 101]
}

/// The bytes of `cirrove/control.sock`.
pub open spec fn socket_name() -> Seq<u8> {
    own_name() + seq![47u8, 99, 111, 110, 116, 114, 111, 108, 46, 115, 111, 99, 107]
}

/// The base below which state is kept: the stated one where it is not empty, else
/// the usual place below the home directory.
pub open spec fn state_base(stated: Option<Seq<u8>>, home: Option<Seq<u8>>) -> Option<Seq<u8>> {
    match stated {
        Some(path) if path.len() > 0 => Some(path),
        _ => match home {
            Some(home) => Some(joined(home, local_state())),
            None => None,
        },
    }
}

/// The content of an optional path.
pub open spec fn path_view(path: Option<Vec<u8>>) -> Option<Seq<u8>> {
    match path {
        Some(bytes) => Some(bytes@),
        None => None,
    }
}

/// Where state is kept, from the values of `XDG_STATE_HOME` and `HOME`.
pub fn state_directory(stated: Option<Vec<u8>>, home: Option<Vec<u8>>) -> (result: Result<
    Vec<u8>,
    DirectoryError,
>)
    ensures
        match state_base(path_view(stated), path_view(home)) {
            None => result == Err::<Vec<u8>, DirectoryError>(DirectoryError::Unset),
            Some(base) => if absolute(base) {
                result is Ok && result->Ok_0@ == joined(base, own_name())
            } else {
                result == Err::<Vec<u8>, DirectoryError>(DirectoryError::Relative)
            },
        },
{
    let named: Option<Vec<u8>> = match stated {
        Some(path) => if path.len() > 0 {
            Some(path)
        } else {
            None
        },
        None => None,
    };
    let base: Vec<u8> = match named {
        Some(path) => path,
        None => match home {
            Some(home) => {
                let rest: Vec<u8> = vec![46, 108, 111, 99, 97, 108, 47, 115, 116, 97, 116, 101];
                proof {
                    assert(rest@ =~= local_state());
                }
                join(home, &rest)
            },
            None => {
                return Err(DirectoryError::Unset);
            },
        },
    };
    if base.len() == 0 || base[0] != 47 {
        return Err(DirectoryError::Relative);
    }
    let name: Vec<u8> = vec![99, 105, 114, 114, 111, 118, 101];
    proof {
        assert(name@ =~= own_name());
    }
    Ok(join(base, &name))
}

/// Where the control socket is, from the value of `XDG_RUNTIME_DIR`.
pub fn socket_location(runtime: Option<Vec<u8>>) -> (result: Result<Vec<u8>, DirectoryError>)
    ensures
        match path_view(runtime) {
            None => result == Err::<Vec<u8>, DirectoryError>(DirectoryError::Unset),
            Some(base) => if absolute(base) {
                result is Ok && result->Ok_0@ == joined(base, socket_name())
            } else {
                result == Err::<Vec<u8>, DirectoryError>(DirectoryError::Relative)
            },
        },
{
    match runtime {
        None => Err(DirectoryError::Unset),
        Some(base) => {
            if base.len() == 0 || base[0] != 47 {
                return Err(DirectoryError::Relative);
            }
            let name: Vec<u8> = vec![
                99, 105, 114, 114, 111, 118, 101, 47, 99, 111, 110, 116, 114, 111, 108, 46, 115, 111,
                99, 107,
            ];
            proof {
                assert(name@ =~= socket_name());
            }
            Ok(join(base, &name))
        },
    }
}

/// Why a directory is not private.
#[derive(Clone, Copy, Debug, PartialEq, Eq, Structural)]
pub enum PrivacyError {
    /// It is no real directory, or others may enter it.
    Open,
    /// It belongs to somebody else.
    Owner,
}

/// Whether a directory is a real one that only its owner may enter.
pub fn check_private(directory: bool, link: bool, mode: u32, owner: u32, user: u32) -> (result: Result<
    (),
    PrivacyError,
>)
    ensures
        result == (if !directory || link || mode & 0o077 != 0 {
            Err::<(), PrivacyError>(PrivacyError::Open)
        } else if owner != user {
            Err(PrivacyError::Owner)
        } else {
            Ok(())
        }),
{
    if !directory || link || mode & 0o077 != 0 {
        return Err(PrivacyError::Open);
    }
    if owner != user {
        return Err(PrivacyError::Owner);
    }
    Ok(())
}

/// What an attempt to reach a control socket found.
#[derive(Clone, Copy, Debug, PartialEq, Eq, Structural)]
pub enum Probe {
    /// Nobody listens.
    Refused,
    /// The path is gone.
    Gone,
    /// Somebody answered, or nothing can be said.
    Uncertain,
}

/// What to do with a control socket left by an earlier process.
#[derive(Clone, Copy, Debug, PartialEq, Eq, Structural)]
pub enum SocketRecovery {
    /// There is nothing to recover.
    Nothing,
    /// Remove it.
    Remove,
    /// It is no socket of this user.
    Foreign,
    /// It is active, or its state cannot be verified.
    Active,
    /// It changed while it was looked at.
    Changed,
}

/// The path is no socket of this user, so it is not even connected to.
pub fn socket_is_foreign(socket: bool, owner: u32, user: u32) -> (foreign: bool)
    ensures
        foreign == (!socket || owner != user),
{
    !socket || owner != user
}

/// What to do with a socket of this user. `same` says that it is still the one that
/// was looked at first.
pub fn recover_socket(probe: Probe, same: bool) -> (verdict: SocketRecovery)
    ensures
        verdict == (match probe {
            Probe::Gone => SocketRecovery::Nothing,
            Probe::Uncertain => SocketRecovery::Active,
            Probe::Refused => if same {
                SocketRecovery::Remove
            } else {
                SocketRecovery::Changed
            },
        }),
{
    match probe {
        Probe::Gone => SocketRecovery::Nothing,
        Probe::Uncertain => SocketRecovery::Active,
        Probe::Refused => if same {
            SocketRecovery::Remove
        } else {
            SocketRecovery::Changed
        },
    }
}

/// What a client writes is what the daemon reads: the verb and the body of a request come
/// back, where the verb holds no space and the body neither starts nor ends with white space.
pub proof fn requests_come_back(verb: Seq<char>, body: Seq<char>)
    requires
        !verb.contains(' '),
        body.len() > 0 ==> !white(body[0]) && !white(body.last()),
    ensures
        request_text(verb, Some(body)).last() == '\n',
        request_text(verb, None).last() == '\n',
        verb_and_body(request_text(verb, Some(body)).drop_last()) == (verb, body),
        verb_and_body(request_text(verb, None).drop_last()) == (verb, Seq::<char>::empty()),
{
    reveal_strlit(" ");
    assert(" "@ =~= seq![' ']);
    single_characters_split(verb, ' ', body);
    assert(request_text(verb, Some(body)).drop_last() =~= verb + seq![' '] + body);
    assert(request_text(verb, None).drop_last() =~= verb);
    assert(trimmed_end(trimmed_start(body)) == body);
}

/// Each verb asks for one thing and each thing is asked for by one verb. The status and the
/// capabilities need no account; everything else is refused where there is none, and what is
/// not known is refused by its name.
pub proof fn verbs_ask_for_one_thing(verb: Seq<char>, managed: bool, asked: Asked)
    requires
        asks(verb, managed, asked),
    ensures
        asked is Status <==> verb == "status"@,
        asked is Capabilities <==> verb == "capabilities"@,
        asked is Subscribe <==> verb == "subscribe"@ && managed,
        asked is Pin <==> verb == "pin"@ && managed,
        asked is Unpin <==> verb == "unpin"@ && managed,
        asked matches Asked::Refuse(reason) ==> {
            &&& verb != "status"@ && verb != "capabilities"@
            &&& !managed ==> reason@ == "this daemon manages no accounts"@
            &&& managed ==> reason@ == "unknown control request "@ + quoted(verb)
        },
{
    reveal_strlit("status");
    reveal_strlit("capabilities");
    reveal_strlit("subscribe");
    reveal_strlit("pin");
    reveal_strlit("unpin");
    assert("status"@.len() == 6 && "capabilities"@.len() == 12 && "subscribe"@.len() == 9
        && "pin"@.len() == 3 && "unpin"@.len() == 5);
}

/// The version of a capability is that of the first entry with its name; what is not named
/// has none.
pub proof fn capabilities_are_named(all: Seq<(String, u32)>, name: Seq<char>, i: int)
    ensures
        0 <= i < all.len() && all[i].0@ == name && (forall|j: int|
            0 <= j < i ==> (#[trigger] all[j]).0@ != name) ==> version_of(all, name) == Some(
            all[i].1,
        ),
        (forall|j: int| 0 <= j < all.len() ==> (#[trigger] all[j]).0@ != name) <==> version_of(
            all,
            name,
        ) is None,
    decreases all.len(),
{
    if all.len() > 0 {
        let rest = all.drop_first();
        capabilities_are_named(rest, name, i - 1);
        assert forall|j: int| 0 <= j < rest.len() implies rest[j] == all[j + 1] by {}
        if all[0].0@ != name {
            if forall|j: int| 0 <= j < rest.len() ==> (#[trigger] rest[j]).0@ != name {
                assert forall|j: int| 0 <= j < all.len() implies (#[trigger] all[j]).0@ != name by {
                    if j > 0 {
                        assert(rest[j - 1].0@ != name);
                    }
                }
            }
            if forall|j: int| 0 <= j < all.len() ==> (#[trigger] all[j]).0@ != name {
                assert forall|j: int| 0 <= j < rest.len() implies (#[trigger] rest[j]).0@
                    != name by {
                    assert(all[j + 1].0@ != name);
                }
            }
            if 0 < i < all.len() && all[i].0@ == name && (forall|j: int|
                0 <= j < i ==> (#[trigger] all[j]).0@ != name) {
                assert(rest[i - 1] == all[i]);
                assert forall|j: int| 0 <= j < i - 1 implies (#[trigger] rest[j]).0@ != name by {
                    assert(all[j + 1].0@ != name);
                }
            }
        }
    }
}

/// The totals count every account once.
pub proof fn totals_count_every_account(accounts: Seq<AccountStatus>, next: AccountStatus)
    ensures
        indexed(Seq::<AccountStatus>::empty()) == (0int, 0int),
        mounted_count(Seq::<AccountStatus>::empty()) == 0,
        indexed(accounts.push(next)).0 == indexed(accounts).0 + next.indexed_feeds,
        indexed(accounts.push(next)).1 == indexed(accounts).1 + next.indexed_items,
        next.mounted ==> mounted_count(accounts.push(next)) == mounted_count(accounts) + 1,
        !next.mounted ==> mounted_count(accounts.push(next)) == mounted_count(accounts),
{
    assert(accounts.push(next).drop_last() =~= accounts);
}

/// State is kept below what was stated for it, and below the home directory where nothing was.
/// A path and what lies below it are one slash apart.
pub proof fn state_lies_below_the_stated_place(stated: Seq<u8>, home: Seq<u8>, rest: Seq<u8>)
    ensures
        stated.len() > 0 ==> state_base(Some(stated), Some(home)) == Some(stated) && state_base(
            Some(stated),
            None,
        ) == Some(stated),
        state_base(None, Some(home)) == Some(joined(home, local_state())),
        state_base(Some(Seq::<u8>::empty()), Some(home)) == Some(joined(home, local_state())),
        state_base(None, None) is None,
        home.len() > 0 && home.last() != 47 ==> joined(home, rest) == home + seq![47u8] + rest,
        home.len() == 0 || home.last() == 47 ==> joined(home, rest) == home + rest,
        absolute(home) ==> absolute(joined(home, rest)),
{
    assert(home.push(47) + rest =~= home + seq![47u8] + rest);
}

/// A socket is removed only where nobody listens on it and it is still the one that was looked
/// at; a live or uncertain one is never touched.
pub proof fn live_sockets_are_left_alone(probe: Probe, same: bool, verdict: SocketRecovery)
    requires
        call_ensures(recover_socket, (probe, same), verdict),
    ensures
        verdict == SocketRecovery::Remove <==> probe == Probe::Refused && same,
        verdict == SocketRecovery::Active <==> probe == Probe::Uncertain,
        verdict == SocketRecovery::Nothing <==> probe == Probe::Gone,
        verdict == SocketRecovery::Changed <==> probe == Probe::Refused && !same,
{
}

/// A directory is private only where it is a real one of this user that nobody else may enter.
pub proof fn open_directories_are_refused(
    directory: bool,
    link: bool,
    mode: u32,
    owner: u32,
    user: u32,
    result: Result<(), PrivacyError>,
)
    requires
        call_ensures(check_private, (directory, link, mode, owner, user), result),
    ensures
        result is Ok <==> directory && !link && mode & 0o077 == 0 && owner == user,
        owner != user ==> result is Err,
{
}

/// A request line ends at its line feed, holds what came before it, and never grows beyond the
/// limit by more than the byte that tells so.
pub proof fn request_lines_are_bounded(line: &mut RequestLine, byte: u8, step: LineStep)
    requires
        old(line).bytes@.len() <= 8192,
        call_ensures(RequestLine::push, (line, byte), step),
    ensures
        step == LineStep::Done <==> byte == 10,
        step == LineStep::Oversized <==> byte != 10 && old(line).bytes@.len() == 8192,
        byte == 10 ==> final(line).bytes@ == old(line).bytes@,
        byte != 10 ==> final(line).bytes@ == old(line).bytes@.push(byte),
{
}

/// A daemon with accounts reports what they indexed and how many of them are mounted; one
/// without reports the counts of its own index and no mount.
pub proof fn statuses_report_the_accounts(
    version: String,
    counts: (u64, u64),
    managed: Option<Vec<AccountStatus>>,
    trims: u64,
    arena: u64,
    retained: u64,
    status: Status,
)
    requires
        managed is Some ==> indexed(managed->0@).0 <= u64::MAX && indexed(managed->0@).1
            <= u64::MAX,
        call_ensures(assemble_status, (version, counts, managed, trims, arena, retained), status),
    ensures
        status.protocol_version == 1,
        status.version == version,
        status.allocator_trims == trims && status.free_arena_bytes == arena
            && status.retained_bytes == retained,
        managed is None ==> status.indexed_feeds == counts.0 && status.indexed_items == counts.1
            && status.active_mounts == 0 && status.accounts@.len() == 0,
        managed is Some ==> status.accounts == managed->0 && status.indexed_feeds == indexed(
            managed->0@,
        ).0 && status.indexed_items == indexed(managed->0@).1 && status.active_mounts
            == mounted_count(managed->0@),
{
}

/// The control socket lies below the stated runtime directory, which must be absolute, and
/// state below the stated or the usual place, which must be too.
pub proof fn standard_directories_are_absolute(
    runtime: Option<Vec<u8>>,
    socket: Result<Vec<u8>, DirectoryError>,
    stated: Option<Vec<u8>>,
    home: Option<Vec<u8>>,
    state: Result<Vec<u8>, DirectoryError>,
)
    requires
        call_ensures(socket_location, (runtime,), socket),
        call_ensures(state_directory, (stated, home), state),
    ensures
        socket matches Ok(path) ==> runtime is Some && path@.len() > 0 && path@[0] == 47 && path@
            == joined(runtime->0@, socket_name()),
        runtime is None ==> socket == Err::<Vec<u8>, DirectoryError>(DirectoryError::Unset),
        runtime is Some && (runtime->0@.len() == 0 || runtime->0@[0] != 47) ==> socket == Err::<
            Vec<u8>,
            DirectoryError,
        >(DirectoryError::Relative),
        runtime is Some && runtime->0@.len() > 0 && runtime->0@[0] == 47 ==> socket is Ok,
        state matches Ok(path) ==> path@.len() > 0 && path@[0] == 47,
        stated is Some && stated->0@.len() > 0 && stated->0@[0] == 47 ==> state is Ok
            && state->Ok_0@ == joined(stated->0@, own_name()),
        (stated is None || stated->0@.len() == 0) && home is None ==> state == Err::<
            Vec<u8>,
            DirectoryError,
        >(DirectoryError::Unset),
{
}

} // verus!
