//! The decisions of a writable mount around its journal: which state of a stream is
//! shown, where reads go, what is done next for an acknowledged edit, and how failures
//! are spaced out.
use crate::filesystem::projection::{is_later, later, Projection, WriteError};
use crate::filesystem::residency::ROOT;
use crate::filesystem::views::{NamespaceViews, ResolvedView};
use crate::journal::namespace::presents;
use crate::journal::records::{NamespaceObject, WorkingFile};
use crate::journal::tables::Table;
use crate::model::{node_view, Id, Node, NodeKind, NodeView, Scope, ScopeView};
use crate::text::{lowercase, optional_is, same_optional, to_lowercase};
use vstd::prelude::*;

verus! {

/// Writes need an account that allows them and that no ordinary mount uses.
pub fn may_write(read_write: bool, enabled: bool) -> (may: bool)
    ensures
        may == (read_write && !enabled),
{
    read_write && !enabled
}

/// The record shows the item of this scope.
pub open spec fn shows(record: WorkingFile, scope: ScopeView, item: Seq<char>) -> bool {
    record.scope@ == scope && record.node.id@ == item
}

/// The place of the record of an item.
pub open spec fn shown_at(files: Seq<WorkingFile>, scope: ScopeView, item: Seq<char>, at: int) -> bool {
    0 <= at < files.len() && shows(files[at], scope, item)
}

/// No item is shown twice.
pub open spec fn one_each(files: Seq<WorkingFile>) -> bool {
    forall|i: int, j: int|
        0 <= i < j < files.len() ==> !shows(
            #[trigger] files[i],
            (#[trigger] files[j]).scope@,
            files[j].node.id@,
        )
}

/// The streams that stand for provider items.
#[derive(Debug)]
pub struct VisibleFiles {
    pub files: Vec<WorkingFile>,
}

/// The nodes without those that a record hides: its own item, and its name in any case.
pub open spec fn unhidden(nodes: Seq<NodeView>, record: NodeView) -> Seq<NodeView>
    decreases nodes.len(),
{
    if nodes.len() == 0 {
        Seq::empty()
    } else {
        let front = unhidden(nodes.drop_last(), record);
        let last = nodes.last();
        if last.id != record.id && lowercase(last.name) != lowercase(record.name) {
            front.push(last)
        } else {
            front
        }
    }
}

/// A directory with the streams below it in place of what they hide.
pub open spec fn covered(
    nodes: Seq<NodeView>,
    files: Seq<WorkingFile>,
    scope: ScopeView,
    parent: Seq<char>,
) -> Seq<NodeView>
    decreases files.len(),
{
    if files.len() == 0 {
        nodes
    } else {
        let before = covered(nodes, files.drop_last(), scope, parent);
        let record = files.last();
        if record.scope@ == scope && record.node@.parent_id == Some(parent) {
            unhidden(before, record.node@).push(record.node@)
        } else {
            before
        }
    }
}

/// The contents of some nodes.
pub open spec fn node_views(nodes: Seq<Node>) -> Seq<NodeView> {
    Seq::new(nodes.len(), |i: int| nodes[i]@)
}

impl VisibleFiles {
    /// Nothing is shown.
    pub fn new() -> (visible: Self)
        ensures
            visible.files@ == Seq::<WorkingFile>::empty(),
    {
        VisibleFiles { files: Vec::new() }
    }

    /// The place of the record of an item.
    fn place(&self, scope: &Scope, item: &String) -> (place: Option<usize>)
        ensures
            match place {
                Some(place) => shown_at(self.files@, scope@, item@, place as int),
                None => forall|at: int| !shown_at(self.files@, scope@, item@, at),
            },
    {
        let mut i: usize = 0;
        while i < self.files.len()
            invariant
                i <= self.files@.len(),
                forall|j: int| 0 <= j < i ==> !shows(#[trigger] self.files@[j], scope@, item@),
            decreases self.files@.len() - i,
        {
            if self.files[i].scope.same(scope) && self.files[i].node.id == *item {
                return Some(i);
            }
            i = i + 1;
        }
        None
    }

    /// The stream that stands for an item.
    pub fn working(&self, scope: &Scope, item: &String) -> (record: Option<&WorkingFile>)
        ensures
            match record {
                Some(record) => exists|at: int| #[trigger]
                    shown_at(self.files@, scope@, item@, at) && self.files@[at] == *record,
                None => forall|at: int| !shown_at(self.files@, scope@, item@, at),
            },
    {
        match self.place(scope, item) {
            Some(place) => {
                proof {
                    assert(shown_at(self.files@, scope@, item@, place as int));
                }
                Some(&self.files[place])
            },
            None => None,
        }
    }

    /// Shows a record, unless a later state of the same stream is shown already. The
    /// answer is what is shown then.
    pub fn publish(&mut self, record: WorkingFile) -> (current: WorkingFile)
        requires
            one_each(old(self).files@),
        ensures
            one_each(final(self).files@),
            if exists|at: int| #[trigger]
                shown_at(old(self).files@, record.scope@, record.node.id@, at) {
                exists|at: int| #[trigger]
                    shown_at(old(self).files@, record.scope@, record.node.id@, at) && (if later(
                        old(self).files@[at],
                        record,
                    ) {
                        current == old(self).files@[at] && final(self).files@ == old(self).files@
                    } else {
                        current == record && final(self).files@ == old(self).files@.update(
                            at,
                            record,
                        )
                    })
            } else {
                current == record && final(self).files@ == old(self).files@.push(record)
            },
    {
        match self.place(&record.scope, &record.node.id) {
            Some(place) => {
                proof {
                    assert(shown_at(self.files@, record.scope@, record.node.id@, place as int));
                }
                if is_later(&self.files[place], &record) {
                    return self.files[place].clone();
                }
                let copy = record.clone();
                self.files.set(place, copy);
                record
            },
            None => {
                proof {
                    assert forall|i: int| 0 <= i < self.files@.len() implies !shows(
                        #[trigger] self.files@[i],
                        record.scope@,
                        record.node.id@,
                    ) by {
                        assert(!shown_at(self.files@, record.scope@, record.node.id@, i));
                    }
                }
                let copy = record.clone();
                self.files.push(copy);
                record
            },
        }
    }

    /// A directory with the streams below it in place of what they hide.
    pub fn overlay(&self, scope: &Scope, parent: &str, nodes: Vec<Node>) -> (listing: Vec<Node>)
        ensures
            node_views(listing@) == covered(node_views(nodes@), self.files@, scope@, parent@),
    {
        let ghost start = node_views(nodes@);
        let mut listing = nodes;
        let mut i: usize = 0;
        while i < self.files.len()
            invariant
                i <= self.files@.len(),
                node_views(listing@) == covered(
                    start,
                    self.files@.take(i as int),
                    scope@,
                    parent@,
                ),
            decreases self.files@.len() - i,
        {
            let record = &self.files[i];
            proof {
                assert(self.files@.take(i + 1).drop_last() =~= self.files@.take(i as int));
                assert(self.files@.take(i + 1).last() == record);
            }
            if record.scope.same(scope) && optional_is(&record.node.parent_id, parent) {
                let mut kept = unhide(&listing, &record.node);
                let copy = record.node.clone();
                let ghost before = node_views(kept@);
                kept.push(copy);
                proof {
                    assert(node_views(kept@) =~= before.push(record.node@));
                }
                listing = kept;
            }
            i = i + 1;
        }
        proof {
            assert(self.files@.take(i as int) =~= self.files@);
        }
        listing
    }
}

/// The nodes without those that a record hides.
fn unhide(nodes: &Vec<Node>, record: &Node) -> (kept: Vec<Node>)
    ensures
        node_views(kept@) == unhidden(node_views(nodes@), record@),
{
    let ghost all = node_views(nodes@);
    let name = to_lowercase(record.name.as_str());
    let mut kept: Vec<Node> = Vec::new();
    let mut i: usize = 0;
    proof {
        assert(node_views(kept@) =~= unhidden(all.take(0), record@));
    }
    while i < nodes.len()
        invariant
            i <= nodes@.len(),
            all == node_views(nodes@),
            name@ == lowercase(record@.name),
            node_views(kept@) == unhidden(all.take(i as int), record@),
        decreases nodes@.len() - i,
    {
        let node = &nodes[i];
        let other = to_lowercase(node.name.as_str());
        proof {
            assert(all.take(i + 1).drop_last() =~= all.take(i as int));
            assert(all.take(i + 1).last() == node@);
        }
        if node.id != record.id && other != name {
            let ghost before = node_views(kept@);
            kept.push(node.clone());
            proof {
                assert(node_views(kept@) =~= before.push(node@));
            }
        }
        i = i + 1;
    }
    proof {
        assert(all.take(i as int) =~= all);
    }
    kept
}

/// The node that a stream is opened for, or why none is.
pub fn opened_node(view: &ResolvedView, truncate: bool) -> (result: Result<Node, WriteError>)
    ensures
        match result {
            Ok(node) => !view.reference && view.node.kind == NodeKind::File && node == (if truncate {
                Node { size: 0, ..view.node }
            } else {
                view.node
            }),
            Err(error) => (view.reference || view.node.kind != NodeKind::File) && error
                == WriteError::NotSupported,
        },
{
    if view.reference || view.node.kind != NodeKind::File {
        return Err(WriteError::NotSupported);
    }
    let mut node = view.node.clone();
    if truncate {
        node.size = 0;
    }
    Ok(node)
}

/// How many bytes are fetched next, at most one block.
pub fn next_range(offset: u64, size: u64, block: u32) -> (count: Option<u32>)
    ensures
        count == (if offset >= size {
            None::<u32>
        } else if size - offset < block {
            Some((size - offset) as u32)
        } else {
            Some(block)
        }),
{
    if offset >= size {
        return None;
    }
    let left: u64 = size - offset;
    if left < block as u64 {
        return Some(left as u32);
    }
    Some(block)
}

/// Where a fetch stands after some bytes came. A source that gives nothing has failed.
pub fn fetched(offset: u64, count: usize) -> (result: Result<u64, WriteError>)
    requires
        offset + count <= u64::MAX,
    ensures
        result == (if count == 0 {
            Err::<u64, WriteError>(WriteError::Failure)
        } else {
            Ok((offset + count) as u64)
        }),
{
    if count == 0 {
        return Err(WriteError::Failure);
    }
    Ok(offset + count as u64)
}

/// Where a write goes: at its offset, or behind everything.
pub fn write_position(append: bool, offset: u64, size: u64) -> (position: u64)
    ensures
        position == (if append {
            size
        } else {
            offset
        }),
{
    if append {
        size
    } else {
        offset
    }
}

/// Where the bytes of an open file come from.
#[derive(Debug)]
pub enum ReadSource {
    /// A local stream.
    Working(Id),
    /// The provider, as this node.
    Remote(Node),
}

/// The object with a local identity, where there is one.
pub open spec fn local_match(
    projection: Projection,
    scope: ScopeView,
    item: Seq<char>,
    object: Option<NamespaceObject>,
) -> bool {
    match object {
        Some(object) => presents(object, scope, item) && exists|id: Id| #[trigger]
            projection@.objects.contains_key(id) && projection@.objects[id] == object,
        None => forall|id: Id| #[trigger]
            projection@.objects.contains_key(id) ==> !presents(
                projection@.objects[id],
                scope,
                item,
            ),
    }
}

/// Where the bytes of an open file come from, given the object that it shows.
pub open spec fn source_for(object: Option<NamespaceObject>, node: NodeView, closed: bool) -> Result<
    (Option<Id>, NodeView),
    WriteError,
> {
    match object {
        Some(object) if object.working_file is Some => Ok((object.working_file, node)),
        _ => if closed {
            Err(WriteError::Stale)
        } else {
            match object {
                Some(object) if object.remote is Some => Ok(
                    (None, NodeView { id: object.remote->0.id@, ..node }),
                ),
                _ => Ok((None, node)),
            }
        },
    }
}

impl Projection {
    /// Where the bytes of an open file come from. `closed` says that its remote reads
    /// were ended.
    pub fn read_source(&self, scope: &Scope, item: &String, node: &Node, closed: bool) -> (result:
        Result<ReadSource, WriteError>)
        ensures
            exists|object: Option<NamespaceObject>| #[trigger]
                local_match(*self, scope@, item@, object) && (match source_for(
                    object,
                    node@,
                    closed,
                ) {
                    Ok((Some(stream), _)) => result == Ok::<ReadSource, WriteError>(
                        ReadSource::Working(stream),
                    ),
                    Ok((None, source)) => match result {
                        Ok(ReadSource::Remote(found)) => found@ == source,
                        _ => false,
                    },
                    Err(error) => result == Err::<ReadSource, WriteError>(error),
                }),
    {
        let found = self.local_object(scope, item);
        proof {
            let object = match found {
                Some(object) => Some(*object),
                None => None,
            };
            assert(local_match(*self, scope@, item@, object));
        }
        if let Some(object) = found {
            if let Some(stream) = object.working_file {
                return Ok(ReadSource::Working(stream));
            }
        }
        if closed {
            return Err(WriteError::Stale);
        }
        let mut source = node.clone();
        if let Some(object) = found {
            if let Some(remote) = &object.remote {
                source.id = remote.id.clone();
            }
        }
        Ok(ReadSource::Remote(source))
    }

    /// Whether the name of a local identity was released.
    pub fn is_unlinked(&self, scope: &Scope, item: &String) -> (unlinked: bool)
        ensures
            exists|object: Option<NamespaceObject>| #[trigger]
                local_match(*self, scope@, item@, object) && unlinked == (object is Some
                    && object->0.unlinked),
    {
        let found = self.local_object(scope, item);
        proof {
            let object = match found {
                Some(object) => Some(*object),
                None => None,
            };
            assert(local_match(*self, scope@, item@, object));
        }
        match found {
            Some(object) => object.unlinked,
            None => false,
        }
    }

    /// The identity under which an open file is kept. A file whose name was released
    /// cannot be opened.
    pub fn stream_identity(&self, scope: &Scope, item: &String) -> (result: Result<
        String,
        WriteError,
    >)
        ensures
            exists|object: Option<NamespaceObject>| #[trigger]
                local_match(*self, scope@, item@, object) && (match object {
                    Some(object) => if object.unlinked {
                        result == Err::<String, WriteError>(WriteError::NotFound)
                    } else {
                        result is Ok && result->Ok_0@ == object.node.id@
                    },
                    None => result is Ok && result->Ok_0@ == item@,
                }),
    {
        let found = self.local_object(scope, item);
        proof {
            let object = match found {
                Some(object) => Some(*object),
                None => None,
            };
            assert(local_match(*self, scope@, item@, object));
        }
        match found {
            Some(object) => {
                if object.unlinked {
                    return Err(WriteError::NotFound);
                }
                Ok(object.node.id.clone())
            },
            None => Ok(item.clone()),
        }
    }

    /// Whether provider metadata owns the entry of a local identity.
    pub fn follows_remote(&self, scope: &Scope, item: &String) -> (follows: bool)
        ensures
            exists|object: Option<NamespaceObject>| #[trigger]
                local_match(*self, scope@, item@, object) && follows == (object is Some
                    && object->0.follows_remote),
    {
        let found = self.local_object(scope, item);
        proof {
            let object = match found {
                Some(object) => Some(*object),
                None => None,
            };
            assert(local_match(*self, scope@, item@, object));
        }
        match found {
            Some(object) => object.follows_remote,
            None => false,
        }
    }

    /// The provider identity behind a local one.
    pub fn remote_identity(&self, scope: &Scope, item: &String) -> (identity: Option<String>)
        ensures
            exists|object: Option<NamespaceObject>| #[trigger]
                local_match(*self, scope@, item@, object) && (match identity {
                    Some(id) => object is Some && object->0.remote is Some && id
                        == object->0.remote->0.id,
                    None => object is None || object->0.remote is None,
                }),
    {
        let found = self.local_object(scope, item);
        proof {
            let object = match found {
                Some(object) => Some(*object),
                None => None,
            };
            assert(local_match(*self, scope@, item@, object));
        }
        match found {
            Some(object) => match &object.remote {
                Some(remote) => Some(remote.id.clone()),
                None => None,
            },
            None => None,
        }
    }

    /// The local identity behind a provider one. A provider item whose name was
    /// released is not found.
    pub fn reference_view(&self, scope: &Scope, item: &String) -> (result: Result<
        Option<String>,
        WriteError,
    >)
        ensures
            match result {
                Ok(Some(local)) => exists|id: Id| #[trigger]
                    self@.objects.contains_key(id) && crate::journal::namespace::owns(
                        self@.objects[id],
                        scope@,
                        item@,
                    ) && !self@.objects[id].unlinked && local == self@.objects[id].node.id,
                Ok(None) => forall|id: Id| #[trigger]
                    self@.objects.contains_key(id) ==> !crate::journal::namespace::owns(
                        self@.objects[id],
                        scope@,
                        item@,
                    ),
                Err(error) => error == WriteError::NotFound && exists|id: Id| #[trigger]
                    self@.objects.contains_key(id) && crate::journal::namespace::owns(
                        self@.objects[id],
                        scope@,
                        item@,
                    ) && self@.objects[id].unlinked,
            },
    {
        match self.owner(scope, item) {
            None => Ok(None),
            Some(id) => match self.objects.get(id) {
                None => Ok(None),
                Some(object) => {
                    if object.unlinked {
                        return Err(WriteError::NotFound);
                    }
                    Ok(Some(object.node.id.clone()))
                },
            },
        }
    }
}

/// One user of a file: whether it still reads from the provider.
#[derive(Debug, Clone, Copy, PartialEq, Eq, Structural)]
pub struct StreamUser {
    pub reading: bool,
}

/// Whether some user still reads from the provider.
pub open spec fn any_reading(users: Seq<StreamUser>) -> bool {
    exists|i: int| 0 <= i < users.len() && (#[trigger] users[i]).reading
}

/// Whether some user still reads from the provider.
fn is_any_reading(users: &Vec<StreamUser>) -> (any: bool)
    ensures
        any == any_reading(users@),
{
    let mut i: usize = 0;
    while i < users.len()
        invariant
            i <= users@.len(),
            forall|j: int| 0 <= j < i ==> !(#[trigger] users@[j]).reading,
        decreases users@.len() - i,
    {
        if users[i].reading {
            return true;
        }
        i = i + 1;
    }
    false
}

/// Users of a file without a local stream, or ones that still read from the provider,
/// must be preserved before its provider item goes.
pub open spec fn must_preserve(streamed: bool, users: Seq<StreamUser>) -> bool {
    (users.len() > 0 && !streamed) || any_reading(users)
}

/// Whether readers must be preserved before a file's provider item goes.
pub fn preserves_readers(streamed: bool, users: &Vec<StreamUser>) -> (preserve: bool)
    ensures
        preserve == must_preserve(streamed, users@),
{
    (users.len() > 0 && !streamed) || is_any_reading(users)
}

/// Whether a replacement has to wait for readers: its source is not here yet, or a
/// user of either side is.
pub fn replacement_needs_readers(
    source_streamed: bool,
    source_users: &Vec<StreamUser>,
    victim_streamed: bool,
    victim_users: &Vec<StreamUser>,
) -> (needs: bool)
    ensures
        needs == (!source_streamed || must_preserve(source_streamed, source_users@)
            || must_preserve(victim_streamed, victim_users@)),
{
    !source_streamed || preserves_readers(source_streamed, source_users) || preserves_readers(
        victim_streamed,
        victim_users,
    )
}

/// Refuses to change an object that is no longer where the caller saw it.
pub fn check_place(object: &NamespaceObject, name: &String, parent: &Option<String>) -> (result:
    Result<(), WriteError>)
    ensures
        result == (if object.node.name@ == name@ && object.node@.parent_id
            == crate::text::optional_view(*parent) {
            Ok::<(), WriteError>(())
        } else {
            Err(WriteError::Stale)
        }),
{
    if object.node.name == *name && same_optional(&object.node.parent_id, parent) {
        return Ok(());
    }
    Err(WriteError::Stale)
}

/// The object is where the caller saw it.
pub open spec fn in_place(object: NamespaceObject, seen: Node) -> bool {
    object.node.name@ == seen.name@ && object.node@.parent_id == crate::text::optional_view(
        seen.parent_id,
    )
}

/// Whether the file that a caller saw may be removed.
pub fn check_unlink(object: &NamespaceObject, seen: &Node) -> (result: Result<(), WriteError>)
    ensures
        result == (if seen.parent_id is None {
            Err::<(), WriteError>(WriteError::Invalid)
        } else if object.unlinked {
            Err(WriteError::NotFound)
        } else if !in_place(*object, *seen) {
            Err(WriteError::Stale)
        } else {
            Ok(())
        }),
{
    if seen.parent_id.is_none() {
        return Err(WriteError::Invalid);
    }
    if object.unlinked {
        return Err(WriteError::NotFound);
    }
    check_place(object, &seen.name, &seen.parent_id)
}

/// Whether one file may replace another, both as the caller saw them.
pub fn check_replace(
    source: &NamespaceObject,
    seen_source: &Node,
    victim: &NamespaceObject,
    seen_victim: &Node,
) -> (result: Result<(), WriteError>)
    ensures
        result == (if in_place(*source, *seen_source) && in_place(*victim, *seen_victim) {
            Ok::<(), WriteError>(())
        } else {
            Err(WriteError::Stale)
        }),
{
    check_place(source, &seen_source.name, &seen_source.parent_id)?;
    check_place(victim, &seen_victim.name, &seen_victim.parent_id)
}

/// Refuses to preserve readers of other bytes than the provider has.
pub fn check_reader(reader: &Node, remote: &Node) -> (result: Result<(), WriteError>)
    ensures
        result == (if reader.size == remote.size && crate::model::content_revision(reader@)
            == crate::model::content_revision(remote@) {
            Ok::<(), WriteError>(())
        } else {
            Err(WriteError::Stale)
        }),
{
    if reader.size == remote.size && reader.same_content_revision(remote) {
        return Ok(());
    }
    Err(WriteError::Stale)
}

/// How often maintenance failed for an object, and when it is tried again.
#[derive(Debug, Clone, Copy, PartialEq, Eq, Structural)]
pub struct Retry {
    pub failures: u32,
    pub at: u64,
}

/// How many failures in a row count.
pub const FAILURE_LIMIT: u32 = 6;

/// The seconds between tries after so many failures.
pub open spec fn backoff(failures: u32) -> int
    decreases failures,
{
    if failures == 0 {
        1
    } else if 2 * backoff((failures - 1) as u32) > 60 {
        60
    } else {
        2 * backoff((failures - 1) as u32)
    }
}

/// The seconds between tries after so many failures: two, four, and so on up to sixty.
pub fn backoff_seconds(failures: u32) -> (seconds: u64)
    requires
        failures <= FAILURE_LIMIT,
    ensures
        seconds == backoff(failures),
{
    proof {
        reveal_with_fuel(backoff, 8);
    }
    let mut seconds: u64 = 1;
    let mut i: u32 = 0;
    while i < failures
        invariant
            i <= failures <= FAILURE_LIMIT,
            seconds == backoff(i),
            seconds <= 60,
        decreases failures - i,
    {
        proof {
            reveal_with_fuel(backoff, 2);
        }
        seconds = if 2 * seconds > 60 {
            60
        } else {
            2 * seconds
        };
        i = i + 1;
    }
    seconds
}

/// The failures that count after one more.
pub open spec fn failed_again(before: Option<Retry>) -> u32 {
    match before {
        None => 1,
        Some(retry) => if retry.failures >= FAILURE_LIMIT {
            FAILURE_LIMIT
        } else {
            (retry.failures + 1) as u32
        },
    }
}

/// When each object is tried again, after one more failure of this one.
pub open spec fn failing(table: Map<Id, Retry>, id: Id, now: u64) -> Map<Id, Retry> {
    let before = if table.contains_key(id) {
        Some(table[id])
    } else {
        None
    };
    let failures = failed_again(before);
    table.insert(id, Retry { failures, at: (now + backoff(failures)) as u64 })
}

/// When maintenance of each object is tried again.
#[derive(Debug)]
pub struct Retries {
    pub table: Table<Retry>,
}

impl Retries {
    /// Nothing has failed.
    pub fn new() -> (retries: Self)
        ensures
            retries.table@ == Map::<Id, Retry>::empty(),
    {
        Retries { table: Table::new() }
    }

    /// Whether an object has to wait.
    pub fn waits(&self, id: Id, now: u64) -> (waits: bool)
        ensures
            waits == (self.table@.contains_key(id) && self.table@[id].at > now),
    {
        match self.table.get(id) {
            Some(retry) => retry.at > now,
            None => false,
        }
    }

    /// Notes a failure. Passing over the object in between does not shorten its wait.
    pub fn fail(&mut self, id: Id, now: u64)
        requires
            now <= u64::MAX - 60,
        ensures
            final(self).table@ == failing(old(self).table@, id, now),
    {
        let failures: u32 = match self.table.get(id) {
            None => 1,
            Some(retry) => if retry.failures >= FAILURE_LIMIT {
                FAILURE_LIMIT
            } else {
                retry.failures + 1
            },
        };
        proof {
            reveal_with_fuel(backoff, 8);
        }
        let at: u64 = now + backoff_seconds(failures);
        self.table.put(id, Retry { failures, at });
    }

    /// Forgets the failures of an object.
    pub fn clear(&mut self, id: Id)
        ensures
            final(self).table@ == old(self).table@.remove(id),
    {
        self.table.take(id);
    }
}

/// What the provider said about an item.
#[derive(Debug)]
pub enum RefreshReply {
    /// Its metadata.
    Found(Node),
    /// It is gone, and that is committed.
    Missing,
    /// It could not be asked.
    Failed(WriteError),
    /// It did not answer in time.
    Silent,
}

/// What the provider's answer makes of an acknowledged item. The overlay of a deleted one
/// is released all the same.
pub open spec fn reply_target(expected: Node, reply: RefreshReply) -> Result<Node, WriteError> {
    match reply {
        RefreshReply::Found(node) => Ok(node),
        RefreshReply::Missing => Ok(expected),
        RefreshReply::Failed(error) => Err(error),
        RefreshReply::Silent => Err(WriteError::TimedOut),
    }
}

/// Whether the cached metadata is what was acknowledged, so that no request is needed.
pub fn is_cached(expected: &Node, cached: &Option<Node>) -> (same: bool)
    ensures
        same == (node_view(*cached) == Some(expected@)),
{
    match cached {
        Some(node) => node.same(expected),
        None => false,
    }
}

/// The metadata that an acknowledged edit is handed off to, after a request.
pub fn handoff_reply(expected: Node, reply: RefreshReply) -> (result: Result<Node, WriteError>)
    ensures
        result == reply_target(expected, reply),
{
    match reply {
        RefreshReply::Found(node) => Ok(node),
        RefreshReply::Missing => Ok(expected),
        RefreshReply::Failed(error) => Err(error),
        RefreshReply::Silent => Err(WriteError::TimedOut),
    }
}

/// What maintenance answers after a handoff. One that came too late is tried again
/// later.
pub fn handoff_outcome(result: Result<(), WriteError>) -> (outcome: Result<bool, WriteError>)
    ensures
        outcome == (match result {
            Ok(_) => Ok::<bool, WriteError>(true),
            Err(error) => if error == WriteError::Stale {
                Ok(true)
            } else {
                Err(error)
            },
        }),
{
    match result {
        Ok(_) => Ok(true),
        Err(error) => {
            if error == WriteError::Stale {
                return Ok(true);
            }
            Err(error)
        },
    }
}

/// How long a failed preparation waits, and whether it is a conflict.
pub fn preparation_retry(failure: WriteError, failed_attempts: u32) -> (retry: (bool, u64))
    ensures
        retry.0 == (failure == WriteError::Stale || failure == WriteError::NotFound),
        retry.1 == (if failure == WriteError::NoDevice {
            0
        } else {
            backoff(
                if failed_attempts < 5 {
                    failed_attempts
                } else {
                    5
                },
            )
        }),
{
    let conflict = failure == WriteError::Stale || failure == WriteError::NotFound;
    if failure == WriteError::NoDevice {
        return (conflict, 0);
    }
    let failures: u32 = if failed_attempts < 5 {
        failed_attempts
    } else {
        5
    };
    (conflict, backoff_seconds(failures))
}

/// How many ancestors a view may have.
pub const ANCESTOR_LIMIT: usize = 128;

/// The ancestors of a view, the nearest first, up to the root.
pub open spec fn ancestors(
    views: Map<Id, ResolvedView>,
    current: u64,
    parent: u64,
    seen: Seq<u64>,
) -> Result<Seq<u64>, WriteError>
    decreases ANCESTOR_LIMIT + 1 - seen.len(),
{
    if current == ROOT {
        Ok(Seq::empty())
    } else if seen.contains(current) || seen.len() >= ANCESTOR_LIMIT {
        Err(WriteError::Loop)
    } else if !views.contains_key(parent as Id) {
        Err(WriteError::Stale)
    } else {
        let header = views[parent as Id];
        match ancestors(views, header.inode, header.parent, seen.push(current)) {
            Ok(rest) => Ok(seq![header.inode] + rest),
            Err(error) => Err(error),
        }
    }
}

impl NamespaceViews {
    /// The ancestors of a view, the nearest first, up to the root.
    pub fn ancestor_chain(&self, inode: u64, above: u64) -> (result: Result<Vec<u64>, WriteError>)
        ensures
            match ancestors(self@.views, inode, above, Seq::empty()) {
                Ok(chain) => result is Ok && result->Ok_0@ == chain,
                Err(error) => result == Err::<Vec<u64>, WriteError>(error),
            },
    {
        let ghost views = self@.views;
        let ghost whole = ancestors(views, inode, above, Seq::empty());
        let mut current: u64 = inode;
        let mut parent: u64 = above;
        let mut seen: Vec<u64> = Vec::new();
        let mut chain: Vec<u64> = Vec::new();
        proof {
            if whole is Ok {
                assert(chain@ + whole->Ok_0 =~= whole->Ok_0);
            }
        }
        while current != ROOT
            invariant
                views == self@.views,
                seen@.len() <= ANCESTOR_LIMIT,
                whole == ancestors(views, inode, above, Seq::empty()),
                match ancestors(views, current, parent, seen@) {
                    Ok(rest) => whole == Ok::<Seq<u64>, WriteError>(chain@ + rest),
                    Err(error) => whole == Err::<Seq<u64>, WriteError>(error),
                },
            decreases ANCESTOR_LIMIT + 1 - seen@.len(),
        {
            let mut i: usize = 0;
            while i < seen.len()
                invariant
                    i <= seen@.len(),
                    current != ROOT,
                    whole == ancestors(views, inode, above, Seq::empty()),
                    views == self@.views,
                    match ancestors(views, current, parent, seen@) {
                        Ok(rest) => whole == Ok::<Seq<u64>, WriteError>(chain@ + rest),
                        Err(error) => whole == Err::<Seq<u64>, WriteError>(error),
                    },
                    forall|j: int| 0 <= j < i ==> #[trigger] seen@[j] != current,
                decreases seen@.len() - i,
            {
                if seen[i] == current {
                    proof {
                        assert(seen@.contains(current));
                    }
                    return Err(WriteError::Loop);
                }
                i = i + 1;
            }
            if seen.len() >= ANCESTOR_LIMIT {
                return Err(WriteError::Loop);
            }
            assert(!seen@.contains(current));
            match self.get(parent) {
                None => {
                    return Err(WriteError::Stale);
                },
                Some(header) => {
                    let ghost next = ancestors(
                        views,
                        header.inode,
                        header.parent,
                        seen@.push(current),
                    );
                    proof {
                        if next is Ok {
                            assert(chain@ + (seq![header.inode] + next->Ok_0) =~= chain@.push(
                                header.inode,
                            ) + next->Ok_0);
                        }
                    }
                    seen.push(current);
                    chain.push(header.inode);
                    current = header.inode;
                    parent = header.parent;
                },
            }
        }
        proof {
            assert(chain@ + Seq::<u64>::empty() =~= chain@);
        }
        Ok(chain)
    }
}

/// What is captured of one step up: a shortcut as an entry of its parent, or the
/// directory itself; nothing of a file.
pub open spec fn captured_step(child: ResolvedView, parent: ResolvedView) -> Option<
    (ScopeView, NodeView),
> {
    match child.entry {
        Some(entry) => Some(
            (parent.scope@, NodeView { parent_id: Some(parent.node.id@), ..entry@ }),
        ),
        None => if child.node.kind == NodeKind::Folder {
            Some((child.scope@, child.node@))
        } else {
            None
        },
    }
}

/// What is captured of one step up.
pub fn capture_step(child: &ResolvedView, parent: &ResolvedView) -> (captured: Option<(Scope, Node)>)
    ensures
        match captured {
            Some((scope, node)) => captured_step(*child, *parent) == Some((scope@, node@)),
            None => captured_step(*child, *parent) is None,
        },
{
    match &child.entry {
        Some(entry) => {
            let mut node = entry.clone();
            node.parent_id = Some(parent.node.id.clone());
            Some((parent.scope.clone(), node))
        },
        None => {
            if child.node.kind == NodeKind::Folder {
                return Some((child.scope.clone(), child.node.clone()));
            }
            None
        },
    }
}

/// The view one step below the `i`th ancestor.
pub open spec fn below(
    views: Map<Id, ResolvedView>,
    view: ResolvedView,
    chain: Seq<u64>,
    i: int,
) -> ResolvedView {
    if i == 0 {
        view
    } else {
        views[chain[i - 1] as Id]
    }
}

/// What is captured from the `i`th ancestor up to the root, the farthest first.
pub open spec fn captured_from(
    views: Map<Id, ResolvedView>,
    view: ResolvedView,
    chain: Seq<u64>,
    i: int,
) -> Seq<(ScopeView, NodeView)>
    decreases chain.len() - i,
{
    if i >= chain.len() {
        Seq::empty()
    } else {
        let rest = captured_from(views, view, chain, i + 1);
        match captured_step(below(views, view, chain, i), views[chain[i] as Id]) {
            Some(step) => rest.push(step),
            None => rest,
        }
    }
}

/// The contents of some entries.
pub open spec fn capture_views(entries: Seq<(Scope, Node)>) -> Seq<(ScopeView, NodeView)> {
    Seq::new(entries.len(), |i: int| (entries[i].0@, entries[i].1@))
}

/// Every ancestor is a resident view.
pub open spec fn all_resident(views: Map<Id, ResolvedView>, chain: Seq<u64>) -> bool {
    forall|i: int| 0 <= i < chain.len() ==> views.contains_key(#[trigger] chain[i] as Id)
}

impl NamespaceViews {
    /// What is captured of the ancestors of a view, from the root down, before local
    /// data or names change.
    pub fn captured_ancestors(&self, view: &ResolvedView) -> (result: Result<
        Vec<(Scope, Node)>,
        WriteError,
    >)
        requires
            self.wf(),
        ensures
            match ancestors(self@.views, view.inode, view.parent, Seq::empty()) {
                Ok(chain) => result is Ok && capture_views(result->Ok_0@) == captured_from(
                    self@.views,
                    *view,
                    chain,
                    0,
                ),
                Err(error) => result == Err::<Vec<(Scope, Node)>, WriteError>(error),
            },
    {
        let chain = match self.ancestor_chain(view.inode, view.parent) {
            Ok(chain) => chain,
            Err(error) => {
                return Err(error);
            },
        };
        let ghost views = self@.views;
        proof {
            lemma_ancestors_resident(self@, view.inode, view.parent, Seq::empty());
        }
        let mut entries: Vec<(Scope, Node)> = Vec::new();
        let mut i: usize = chain.len();
        proof {
            assert(capture_views(entries@) =~= captured_from(views, *view, chain@, i as int));
        }
        while i > 0
            invariant
                i <= chain@.len(),
                views == self@.views,
                all_resident(views, chain@),
                capture_views(entries@) == captured_from(views, *view, chain@, i as int),
            decreases i,
        {
            i = i - 1;
            let parent = self.get(chain[i]);
            let child = if i == 0 {
                Some(view)
            } else {
                self.get(chain[i - 1])
            };
            proof {
                assert(views.contains_key(chain@[i as int] as Id));
                if i > 0 {
                    assert(views.contains_key(chain@[i - 1] as Id));
                }
            }
            if let (Some(child), Some(parent)) = (child, parent) {
                if let Some(step) = capture_step(child, parent) {
                    let ghost before = capture_views(entries@);
                    let ghost pair = (step.0@, step.1@);
                    entries.push(step);
                    proof {
                        assert(capture_views(entries@) =~= before.push(pair));
                    }
                }
            }
        }
        Ok(entries)
    }
}

proof fn lemma_ancestors_resident(
    state: crate::filesystem::views::NamespaceState,
    current: u64,
    parent: u64,
    seen: Seq<u64>,
)
    requires
        crate::filesystem::views::agrees(state),
    ensures
        match ancestors(state.views, current, parent, seen) {
            Ok(chain) => all_resident(state.views, chain),
            Err(_) => true,
        },
    decreases ANCESTOR_LIMIT + 1 - seen.len(),
{
    if current != ROOT && !seen.contains(current) && seen.len() < ANCESTOR_LIMIT
        && state.views.contains_key(parent as Id) {
        let header = state.views[parent as Id];
        lemma_ancestors_resident(state, header.inode, header.parent, seen.push(current));
        if let Ok(rest) = ancestors(state.views, header.inode, header.parent, seen.push(current)) {
            let chain = seq![header.inode] + rest;
            assert forall|i: int| 0 <= i < chain.len() implies state.views.contains_key(
                #[trigger] chain[i] as Id,
            ) by {
                if i > 0 {
                    assert(chain[i] == rest[i - 1]);
                    assert(state.views.contains_key(rest[i - 1] as Id));
                }
            }
        }
    }
}

/// The wait between tries starts at one second, doubles with every failure and stays at
/// sixty.
pub proof fn waits_double_up_to_a_minute(failures: u32)
    ensures
        backoff(0) == 1,
        1 <= backoff(failures) <= 60,
        failures < 6 ==> backoff((failures + 1) as u32) == (if failures == 5 {
            60
        } else {
            2 * backoff(failures)
        }),
        failures >= 6 ==> backoff(failures) == 60,
    decreases failures,
{
    reveal_with_fuel(backoff, 8);
    if failures > 0 {
        waits_double_up_to_a_minute((failures - 1) as u32);
    }
}

/// A failure counts for its own object alone, one more each time and six at most, and the
/// object waits from then on: two seconds after its first failure, sixty after its sixth.
pub proof fn failures_double_the_wait(table: Map<Id, Retry>, id: Id, now: u64, other: Id)
    requires
        now <= u64::MAX - 60,
    ensures
        ({
            let after = failing(table, id, now);
            &&& after.contains_key(id)
            &&& !table.contains_key(id) ==> after[id] == (Retry { failures: 1, at: (now + 2) as u64 })
            &&& table.contains_key(id) ==> after[id].failures == (if table[id].failures >= 6 {
                6
            } else {
                table[id].failures + 1
            })
            &&& after[id].failures >= 6 ==> after[id].at == now + 60
            &&& now < after[id].at <= now + 60
            &&& other != id ==> after.contains_key(other) == table.contains_key(other) && (
            after.contains_key(other) ==> after[other] == table[other])
        }),
{
    reveal_with_fuel(backoff, 3);
    let before = if table.contains_key(id) {
        Some(table[id])
    } else {
        None
    };
    waits_double_up_to_a_minute(failed_again(before));
}

/// A listed name is hidden by exactly those records that have its identity or its name in
/// any case.
pub proof fn records_hide_their_name(nodes: Seq<NodeView>, record: NodeView, node: NodeView)
    ensures
        unhidden(nodes, record).contains(node) <==> nodes.contains(node) && node.id != record.id
            && lowercase(node.name) != lowercase(record.name),
    decreases nodes.len(),
{
    if nodes.len() > 0 {
        let rest = nodes.drop_last();
        let last = nodes.last();
        records_hide_their_name(rest, record, node);
        let front = unhidden(rest, record);
        let all = unhidden(nodes, record);
        if front.contains(node) {
            let k = choose|k: int| 0 <= k < front.len() && front[k] == node;
            assert(all[k] == node);
        }
        if rest.contains(node) {
            let k = choose|k: int| 0 <= k < rest.len() && rest[k] == node;
            assert(nodes[k] == node);
        }
        if nodes.contains(node) {
            let k = choose|k: int| 0 <= k < nodes.len() && nodes[k] == node;
            if k < rest.len() {
                assert(rest[k] == node);
            }
        }
        if all.contains(node) {
            let k = choose|k: int| 0 <= k < all.len() && all[k] == node;
            if k < front.len() {
                assert(front[k] == node);
            }
        }
        if node == last && last.id != record.id && lowercase(last.name) != lowercase(record.name) {
            assert(all[front.len() as int] == node);
        }
        if node == last {
            assert(nodes[nodes.len() - 1] == node);
        }
    }
}

/// The stream stands in this directory.
pub open spec fn stands_in(record: WorkingFile, scope: ScopeView, parent: Seq<char>) -> bool {
    record.scope@ == scope && record.node.parent_id is Some && record.node.parent_id->0@ == parent
}

/// The record takes the place of the node.
pub open spec fn takes_place_of(record: WorkingFile, node: NodeView) -> bool {
    record.node.id@ == node.id || lowercase(record.node.name@) == lowercase(node.name)
}

/// A directory shows the streams that stand in it in place of what they hide. What no stream
/// in it hides stays listed, what one hides does not, and a stream is listed unless a later
/// one takes its place.
pub proof fn streams_cover_what_they_stand_for(
    nodes: Seq<NodeView>,
    files: Seq<WorkingFile>,
    scope: ScopeView,
    parent: Seq<char>,
    node: NodeView,
)
    ensures
        covered(nodes, files, scope, parent).contains(node) <==> {
            ||| {
                &&& nodes.contains(node)
                &&& forall|j: int|
                    0 <= j < files.len() && stands_in(#[trigger] files[j], scope, parent)
                        ==> !takes_place_of(files[j], node)
            }
            ||| exists|i: int|
                {
                    &&& 0 <= i < files.len()
                    &&& stands_in(#[trigger] files[i], scope, parent)
                    &&& files[i].node@ == node
                    &&& forall|j: int|
                        i < j < files.len() && stands_in(#[trigger] files[j], scope, parent)
                            ==> !takes_place_of(files[j], node)
                }
        },
    decreases files.len(),
{
    if files.len() > 0 {
        let rest = files.drop_last();
        let record = files.last();
        let before = covered(nodes, rest, scope, parent);
        let all = covered(nodes, files, scope, parent);
        streams_cover_what_they_stand_for(nodes, rest, scope, parent, node);
        records_hide_their_name(before, record.node@, node);
        assert forall|j: int| 0 <= j < rest.len() implies rest[j] == files[j] by {}
        assert(files[files.len() - 1] == record);
        if stands_in(record, scope, parent) {
            let left = unhidden(before, record.node@);
            assert(all == left.push(record.node@));
            assert(all.contains(node) <==> left.contains(node) || node == record.node@) by {
                if left.contains(node) {
                    let k = choose|k: int| 0 <= k < left.len() && left[k] == node;
                    assert(all[k] == node);
                }
                if node == record.node@ {
                    assert(all[left.len() as int] == node);
                }
                if all.contains(node) {
                    let k = choose|k: int| 0 <= k < all.len() && all[k] == node;
                    if k < left.len() {
                        assert(left[k] == node);
                    }
                }
            }
        }
        let whole = exists|i: int|
            {
                &&& 0 <= i < files.len()
                &&& stands_in(#[trigger] files[i], scope, parent)
                &&& files[i].node@ == node
                &&& forall|j: int|
                    i < j < files.len() && stands_in(#[trigger] files[j], scope, parent)
                        ==> !takes_place_of(files[j], node)
            };
        let part = exists|i: int|
            {
                &&& 0 <= i < rest.len()
                &&& stands_in(#[trigger] rest[i], scope, parent)
                &&& rest[i].node@ == node
                &&& forall|j: int|
                    i < j < rest.len() && stands_in(#[trigger] rest[j], scope, parent)
                        ==> !takes_place_of(rest[j], node)
            };
        if part && !(stands_in(record, scope, parent) && takes_place_of(record, node)) {
            let i = choose|i: int|
                {
                    &&& 0 <= i < rest.len()
                    &&& stands_in(#[trigger] rest[i], scope, parent)
                    &&& rest[i].node@ == node
                    &&& forall|j: int|
                        i < j < rest.len() && stands_in(#[trigger] rest[j], scope, parent)
                            ==> !takes_place_of(rest[j], node)
                };
            assert(files[i] == rest[i]);
            assert forall|j: int|
                i < j < files.len() && stands_in(
                    #[trigger] files[j],
                    scope,
                    parent,
                ) implies !takes_place_of(files[j], node) by {
                if j < rest.len() {
                    assert(stands_in(rest[j], scope, parent));
                }
            }
            assert(whole);
        }
        if whole {
            let i = choose|i: int|
                {
                    &&& 0 <= i < files.len()
                    &&& stands_in(#[trigger] files[i], scope, parent)
                    &&& files[i].node@ == node
                    &&& forall|j: int|
                        i < j < files.len() && stands_in(#[trigger] files[j], scope, parent)
                            ==> !takes_place_of(files[j], node)
                };
            if i < rest.len() {
                assert(rest[i] == files[i]);
                assert forall|j: int|
                    i < j < rest.len() && stands_in(
                        #[trigger] rest[j],
                        scope,
                        parent,
                    ) implies !takes_place_of(rest[j], node) by {
                    assert(stands_in(files[j], scope, parent));
                }
                assert(part);
                assert(!(stands_in(files[files.len() - 1], scope, parent) && takes_place_of(
                    files[files.len() - 1],
                    node,
                )));
            }
        }
        if forall|j: int|
            0 <= j < files.len() && stands_in(#[trigger] files[j], scope, parent)
                ==> !takes_place_of(files[j], node) {
            assert forall|j: int|
                0 <= j < rest.len() && stands_in(
                    #[trigger] rest[j],
                    scope,
                    parent,
                ) implies !takes_place_of(rest[j], node) by {
                assert(stands_in(files[j], scope, parent));
            }
        }
        if (forall|j: int|
            0 <= j < rest.len() && stands_in(#[trigger] rest[j], scope, parent)
                ==> !takes_place_of(rest[j], node)) && !(stands_in(record, scope, parent)
            && takes_place_of(record, node)) {
            assert forall|j: int|
                0 <= j < files.len() && stands_in(
                    #[trigger] files[j],
                    scope,
                    parent,
                ) implies !takes_place_of(files[j], node) by {
                if j < rest.len() {
                    assert(stands_in(rest[j], scope, parent));
                }
            }
        }
    }
}

/// A file with a local stream is read from it, always. Without one it is read from the
/// provider under the identity that the provider gave it, unless its remote reads were ended.
pub proof fn local_bytes_are_read_first(
    object: Option<NamespaceObject>,
    node: NodeView,
    closed: bool,
)
    ensures
        object is Some && object->0.working_file is Some ==> source_for(object, node, closed) == Ok::<
            (Option<Id>, NodeView),
            WriteError,
        >((object->0.working_file, node)),
        object is None || object->0.working_file is None ==> {
            &&& closed ==> source_for(object, node, closed) == Err::<
                (Option<Id>, NodeView),
                WriteError,
            >(WriteError::Stale)
            &&& !closed ==> {
                &&& source_for(object, node, closed) is Ok
                &&& source_for(object, node, closed)->Ok_0.0 is None
                &&& source_for(object, node, closed)->Ok_0.1.id == (if object is Some
                    && object->0.remote is Some {
                    object->0.remote->0.id@
                } else {
                    node.id
                })
                &&& source_for(object, node, closed)->Ok_0.1.size == node.size
                &&& source_for(object, node, closed)->Ok_0.1.etag == node.etag
                &&& source_for(object, node, closed)->Ok_0.1.name == node.name
            }
        },
{
}

/// The readers of a file need not be preserved exactly where nobody uses it, or where it has
/// a local stream and nobody reads from the provider any more.
pub proof fn readers_are_preserved(streamed: bool, users: Seq<StreamUser>)
    ensures
        !must_preserve(streamed, users) <==> users.len() == 0 || (streamed && forall|i: int|
            0 <= i < users.len() ==> !(#[trigger] users[i]).reading),
{
}

/// What the provider has is what an acknowledged edit is handed off to; a deletion that is
/// committed leaves the acknowledged metadata, and nothing else gives a target.
pub proof fn provider_metadata_wins(expected: Node, found: Node, error: WriteError)
    ensures
        reply_target(expected, RefreshReply::Found(found)) == Ok::<Node, WriteError>(found),
        reply_target(expected, RefreshReply::Missing) == Ok::<Node, WriteError>(expected),
        reply_target(expected, RefreshReply::Failed(error)) == Err::<Node, WriteError>(error),
        reply_target(expected, RefreshReply::Silent) == Err::<Node, WriteError>(
            WriteError::TimedOut,
        ),
{
}

/// The ancestors of a view lead from its parent to the root: each is the parent of the one
/// before it, and the root is the last.
pub proof fn ancestors_lead_to_the_root(
    views: Map<Id, ResolvedView>,
    current: u64,
    parent: u64,
    seen: Seq<u64>,
    i: int,
)
    requires
        forall|id: Id| #[trigger] views.contains_key(id) ==> views[id].inode as Id == id,
    ensures
        ancestors(views, current, parent, seen) matches Ok(chain) ==> {
            &&& chain.len() == 0 <==> current == 1
            &&& chain.len() > 0 ==> chain[0] == parent && chain.last() == 1
            &&& 0 <= i < chain.len() - 1 ==> views.contains_key(chain[i] as Id)
                && chain[i + 1] == views[chain[i] as Id].parent
        },
        ancestors(views, current, parent, seen) matches Err(error) ==> error == WriteError::Loop
            || error == WriteError::Stale,
    decreases 130 - seen.len(),
{
    if current != ROOT && !seen.contains(current) && seen.len() < ANCESTOR_LIMIT
        && views.contains_key(parent as Id) {
        let header = views[parent as Id];
        ancestors_lead_to_the_root(views, header.inode, header.parent, seen.push(current), i - 1);
        ancestors_lead_to_the_root(views, header.inode, header.parent, seen.push(current), 0);
        if let Ok(rest) = ancestors(views, header.inode, header.parent, seen.push(current)) {
            let chain = seq![header.inode] + rest;
            if rest.len() > 0 {
                assert(chain.last() == rest.last());
                assert(chain[1] == rest[0]);
            }
            if 0 < i < chain.len() - 1 {
                assert(chain[i] == rest[i - 1]);
                assert(chain[i + 1] == rest[i]);
            }
        }
    }
}

/// On the way to the root shortcuts are captured as entries of the directory that they are
/// listed in, and directories as they are. A plain file is not captured.
pub proof fn steps_are_captured(child: ResolvedView, parent: ResolvedView)
    ensures
        captured_step(child, parent) is None <==> child.entry is None && child.node.kind
            != NodeKind::Folder,
        child.entry is Some ==> {
            let step = captured_step(child, parent)->0;
            &&& step.0 == parent.scope@
            &&& step.1.id == child.entry->0.id@
            &&& step.1.name == child.entry->0.name@
            &&& step.1.parent_id == Some(parent.node.id@)
        },
        child.entry is None && child.node.kind == NodeKind::Folder ==> captured_step(child, parent)
            == Some((child.scope@, child.node@)),
{
}

/// What is shown of a stream never goes back: a record that is published is shown unless a
/// later state is, what is shown is the answer, and no other record is touched.
pub proof fn shown_streams_never_go_back(
    visible: &mut VisibleFiles,
    record: WorkingFile,
    current: WorkingFile,
    i: int,
)
    requires
        one_each(old(visible).files@),
        call_ensures(VisibleFiles::publish, (visible, record), current),
    ensures
        exists|at: int| #[trigger]
            shown_at(final(visible).files@, record.scope@, record.node.id@, at) && final(visible).files@[at] == current,
        current == record || later(current, record),
        0 <= i < old(visible).files@.len() ==> {
            let before = old(visible).files@[i];
            &&& !shows(before, record.scope@, record.node.id@) ==> final(visible).files@[i]
                == before
            &&& shows(before, record.scope@, record.node.id@) ==> final(visible).files@[i]
                == current && !later(before, current)
        },
        final(visible).files@.len() <= old(visible).files@.len() + 1,
{
    let old_files = old(visible).files@;
    let new_files = final(visible).files@;
    if exists|at: int| #[trigger] shown_at(old_files, record.scope@, record.node.id@, at) {
        let at = choose|at: int| #[trigger]
            shown_at(old_files, record.scope@, record.node.id@, at) && (if later(
                old_files[at],
                record,
            ) {
                current == old_files[at] && new_files == old_files
            } else {
                current == record && new_files == old_files.update(at, record)
            });
        assert(shown_at(new_files, record.scope@, record.node.id@, at));
        if 0 <= i < old_files.len() && i != at && shows(
            old_files[i],
            record.scope@,
            record.node.id@,
        ) {
            if i < at {
                assert(!shows(old_files[i], old_files[at].scope@, old_files[at].node.id@));
            } else {
                assert(!shows(old_files[at], old_files[i].scope@, old_files[i].node.id@));
            }
        }
    } else {
        assert(shown_at(new_files, record.scope@, record.node.id@, old_files.len() as int));
        if 0 <= i < old_files.len() {
            assert(!shown_at(old_files, record.scope@, record.node.id@, i));
        }
    }
}

/// A file is removed only as the caller saw it: not the root, still there, and under the same
/// name in the same directory.
pub proof fn removals_need_the_seen_place(
    object: NamespaceObject,
    seen: Node,
    result: Result<(), WriteError>,
)
    requires
        call_ensures(check_unlink, (&object, &seen), result),
    ensures
        result is Ok <==> {
            &&& seen.parent_id is Some
            &&& !object.unlinked
            &&& object.node.name@ == seen.name@
            &&& object.node.parent_id is Some
            &&& object.node.parent_id->0@ == seen.parent_id->0@
        },
        seen.parent_id is Some && object.unlinked ==> result == Err::<(), WriteError>(
            WriteError::NotFound,
        ),
{
}

/// One file replaces another only where both are where the caller saw them.
pub proof fn replacements_need_both_seen_places(
    source: NamespaceObject,
    seen_source: Node,
    victim: NamespaceObject,
    seen_victim: Node,
    result: Result<(), WriteError>,
)
    requires
        call_ensures(check_replace, (&source, &seen_source, &victim, &seen_victim), result),
    ensures
        result is Ok ==> source.node.name@ == seen_source.name@ && victim.node.name@
            == seen_victim.name@ && source.node@.parent_id == seen_source@.parent_id
            && victim.node@.parent_id == seen_victim@.parent_id,
        source.node.name@ != seen_source.name@ || source.node@.parent_id != seen_source@.parent_id
            || victim.node.name@ != seen_victim.name@ || victim.node@.parent_id
            != seen_victim@.parent_id ==> result == Err::<(), WriteError>(WriteError::Stale),
        source.node.name@ == seen_source.name@ && victim.node.name@ == seen_victim.name@
            && source.node@.parent_id == seen_source@.parent_id && victim.node@.parent_id
            == seen_victim@.parent_id ==> result is Ok,
{
}

/// A replacement goes ahead at once only where the bytes of its source are here and no user of
/// either side reads from the provider or needs to.
pub proof fn replacements_wait_for_readers(
    source_streamed: bool,
    source_users: Vec<StreamUser>,
    victim_streamed: bool,
    victim_users: Vec<StreamUser>,
    needs: bool,
    i: int,
)
    requires
        call_ensures(
            replacement_needs_readers,
            (source_streamed, &source_users, victim_streamed, &victim_users),
            needs,
        ),
    ensures
        !source_streamed ==> needs,
        0 <= i < source_users@.len() && source_users@[i].reading ==> needs,
        0 <= i < victim_users@.len() && (!victim_streamed || victim_users@[i].reading) ==> needs,
        source_streamed && source_users@.len() == 0 && victim_users@.len() == 0 ==> !needs,
        source_streamed && victim_streamed && (forall|k: int|
            0 <= k < source_users@.len() ==> !(#[trigger] source_users@[k]).reading) && (forall|
            k: int,
        |
            0 <= k < victim_users@.len() ==> !(#[trigger] victim_users@[k]).reading) ==> !needs,
{
}

/// Only a plain file is opened for writing, as it is or as an empty one.
pub proof fn only_plain_files_are_opened(
    view: ResolvedView,
    truncate: bool,
    result: Result<Node, WriteError>,
)
    requires
        call_ensures(opened_node, (&view, truncate), result),
    ensures
        result is Ok <==> !view.reference && view.node.kind == NodeKind::File,
        result is Err ==> result->Err_0 == WriteError::NotSupported,
        result matches Ok(node) ==> {
            &&& node.id == view.node.id && node.name == view.node.name
            &&& node.etag == view.node.etag && node.content_version == view.node.content_version
            &&& truncate ==> node.size == 0
            &&& !truncate ==> node.size == view.node.size
        },
{
}

/// Writing needs an account that allows it and that no ordinary mount uses, and a write goes to
/// its offset, or behind everything where it appends.
pub proof fn writes_go_where_they_are_meant(
    read_write: bool,
    enabled: bool,
    may: bool,
    append: bool,
    offset: u64,
    size: u64,
    position: u64,
)
    requires
        call_ensures(may_write, (read_write, enabled), may),
        call_ensures(write_position, (append, offset, size), position),
    ensures
        may <==> read_write && !enabled,
        append ==> position == size,
        !append ==> position == offset,
{
}

} // verus!
