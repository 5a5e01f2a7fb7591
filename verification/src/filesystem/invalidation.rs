//! Which views a change of metadata makes stale, in bounded batches.
use crate::filesystem::residency::ROOT;
use crate::filesystem::views::{
    key_less, key_views, IdentityKey, IdentityKeyView, NamespaceViews, ResolvedView, BYTES,
    ENTRIES,
};
use crate::model::{Id, NodeKind, Scope};
use crate::text::characters;
use crate::words::{number_within, parse_within};
use vstd::prelude::*;
use vstd::utf8::encode_utf8;

verus! {

/// What a change of metadata is about.
#[derive(Debug, Clone, Copy, PartialEq, Eq, Structural)]
pub enum ChangeKind {
    /// One item.
    Item,
    /// The entries of one directory.
    Directory,
    /// Everything of a scope.
    Scope,
}

/// A committed change of metadata.
#[derive(Debug)]
pub struct MetadataChange {
    pub scope: Scope,
    pub kind: ChangeKind,
    pub identity: String,
}

/// How far a sweep has come.
#[derive(Debug)]
pub struct InvalidationCursor {
    pub key: Option<IdentityKey>,
    pub inode: Option<u64>,
}

impl InvalidationCursor {
    /// The start of a sweep.
    pub fn new() -> (cursor: Self)
        ensures
            cursor.key is None,
            cursor.inode is None,
    {
        InvalidationCursor { key: None, inode: None }
    }
}

/// One view that the kernel has to look at again.
#[derive(Debug)]
pub struct Invalidation {
    pub inode: u64,
    pub parent: u64,
    pub name: String,
    pub directory: bool,
    pub entry: bool,
}

/// The content of an invalidation.
pub struct InvalidationView {
    pub inode: u64,
    pub parent: u64,
    pub name: Seq<char>,
    pub directory: bool,
    pub entry: bool,
}

impl View for Invalidation {
    type V = InvalidationView;

    open spec fn view(&self) -> InvalidationView {
        InvalidationView {
            inode: self.inode,
            parent: self.parent,
            name: self.name@,
            directory: self.directory,
            entry: self.entry,
        }
    }
}

/// The contents of some invalidations.
pub open spec fn invalidation_views(entries: Seq<Invalidation>) -> Seq<InvalidationView> {
    Seq::new(entries.len(), |i: int| entries[i]@)
}

/// Some views to look at again, where to go on, and whether that is needed.
#[derive(Debug)]
pub struct InvalidationBatch {
    pub entries: Vec<Invalidation>,
    pub next: InvalidationCursor,
    pub complete: bool,
}

/// The change concerns what stands under this identity.
pub open spec fn concerned(change: MetadataChange, key: IdentityKeyView) -> bool {
    &&& key.account == change.scope.account@
    &&& key.provider == change.scope.provider@
    &&& key.collection == change.scope.collection@
    &&& change.kind == ChangeKind::Scope || key.item == change.identity@
}

/// The identity comes behind the cursor.
pub open spec fn behind(cursor: Option<IdentityKey>, key: IdentityKeyView) -> bool {
    match cursor {
        Some(last) => key_less(last@, key),
        None => true,
    }
}

/// The identities that a change concerns behind a cursor, in order.
pub open spec fn selected(
    keys: Seq<IdentityKeyView>,
    change: MetadataChange,
    cursor: Option<IdentityKey>,
) -> Seq<IdentityKeyView>
    decreases keys.len(),
{
    if keys.len() == 0 {
        Seq::empty()
    } else {
        let front = selected(keys.drop_last(), change, cursor);
        if concerned(change, keys.last()) && behind(cursor, keys.last()) {
            front.push(keys.last())
        } else {
            front
        }
    }
}

/// The inodes of some identities.
pub open spec fn inodes_of(keys: Seq<IdentityKeyView>) -> Seq<u64> {
    Seq::new(keys.len(), |i: int| keys[i].inode)
}

/// The inodes behind a cursor, of some in order.
pub open spec fn swept(ids: Seq<Id>, cursor: Option<u64>) -> Seq<u64>
    decreases ids.len(),
{
    if ids.len() == 0 {
        Seq::empty()
    } else {
        let front = swept(ids.drop_last(), cursor);
        match cursor {
            Some(last) if ids.last() <= last => front,
            _ => front.push(ids.last() as u64),
        }
    }
}

/// What the kernel is told of a view. The root never goes stale, and a change of a
/// directory's entries concerns directories alone.
pub open spec fn told(
    views: Map<Id, ResolvedView>,
    directories: bool,
    inode: u64,
) -> Option<InvalidationView> {
    if inode == ROOT || !views.contains_key(inode as Id) {
        None
    } else {
        let view = views[inode as Id];
        if directories && view.node.kind != NodeKind::Folder {
            None
        } else {
            Some(
                InvalidationView {
                    inode,
                    parent: view.parent,
                    name: view.name@,
                    directory: view.node.kind == NodeKind::Folder,
                    entry: !directories,
                },
            )
        }
    }
}

/// What a batch holds from the `i`th inode on: its invalidations, where it stops, and
/// whether that is the end.
pub open spec fn batched(
    views: Map<Id, ResolvedView>,
    directories: bool,
    inodes: Seq<u64>,
    i: int,
    empty: bool,
    bytes: nat,
) -> (Seq<InvalidationView>, int, bool)
    decreases inodes.len() - i,
{
    if i >= inodes.len() {
        (Seq::empty(), i, true)
    } else if i >= ENTRIES {
        (Seq::empty(), i, false)
    } else {
        match told(views, directories, inodes[i]) {
            None => batched(views, directories, inodes, i + 1, empty, bytes),
            Some(one) => {
                let size = encode_utf8(one.name).len();
                if !empty && bytes + size > BYTES {
                    (Seq::empty(), i, false)
                } else {
                    let (rest, stop, complete) = batched(
                        views,
                        directories,
                        inodes,
                        i + 1,
                        false,
                        bytes + size,
                    );
                    (seq![one] + rest, stop, complete)
                }
            },
        }
    }
}

/// One batch of a sweep over the identities that a change concerns.
pub open spec fn concerned_batch(
    views: Map<Id, ResolvedView>,
    keys: Seq<IdentityKeyView>,
    change: MetadataChange,
    cursor: InvalidationCursor,
    batch: InvalidationBatch,
) -> bool {
    let left = selected(keys, change, cursor.key);
    let (entries, stop, complete) = batched(
        views,
        change.kind == ChangeKind::Directory,
        inodes_of(left),
        0,
        true,
        0,
    );
    &&& invalidation_views(batch.entries@) == entries
    &&& batch.complete == complete
    &&& batch.next.inode == cursor.inode
    &&& if stop > 0 {
        batch.next.key is Some && batch.next.key->0@ == left[stop - 1]
    } else {
        batch.next.key == cursor.key
    }
}

/// The inodes of all views, in order.
pub open spec fn lists_views(ids: Seq<Id>, views: Map<Id, ResolvedView>) -> bool {
    &&& crate::journal::tables::increasing(ids)
    &&& forall|id: Id| ids.contains(id) <==> #[trigger] views.contains_key(id)
    &&& forall|i: int| 0 <= i < ids.len() ==> #[trigger] ids[i] <= u64::MAX
}

/// One batch of a sweep over all views.
pub open spec fn whole_batch(
    views: Map<Id, ResolvedView>,
    ids: Seq<Id>,
    cursor: InvalidationCursor,
    batch: InvalidationBatch,
) -> bool {
    let inodes = swept(ids, cursor.inode);
    let (entries, stop, complete) = batched(views, false, inodes, 0, true, 0);
    &&& invalidation_views(batch.entries@) == entries
    &&& batch.complete == complete
    &&& batch.next.key == cursor.key
    &&& if stop > 0 {
        batch.next.inode == Some(inodes[stop - 1])
    } else {
        batch.next.inode == cursor.inode
    }
}

impl NamespaceViews {
    /// One invalidation, where the view is concerned.
    fn tell(&self, directories: bool, inode: u64) -> (one: Option<Invalidation>)
        ensures
            match one {
                Some(one) => told(self@.views, directories, inode) == Some(one@),
                None => told(self@.views, directories, inode) is None,
            },
    {
        if inode == ROOT {
            return None;
        }
        match self.get(inode) {
            None => None,
            Some(view) => {
                let folder = view.node.kind == NodeKind::Folder;
                if directories && !folder {
                    return None;
                }
                Some(
                    Invalidation {
                        inode,
                        parent: view.parent,
                        name: view.name.clone(),
                        directory: folder,
                        entry: !directories,
                    },
                )
            },
        }
    }

    /// Fills one batch from the first of some inodes.
    fn fill(&self, directories: bool, inodes: &Vec<u64>) -> (batch: (Vec<Invalidation>, usize, bool))
        ensures
            ({
                let (entries, stop, complete) = batched(
                    self@.views,
                    directories,
                    inodes@,
                    0,
                    true,
                    0,
                );
                invalidation_views(batch.0@) == entries && batch.1 == stop && batch.2 == complete
            }),
            batch.1 <= inodes@.len(),
    {
        let mut entries: Vec<Invalidation> = Vec::new();
        let ghost views = self@.views;
        let ghost whole = batched(views, directories, inodes@, 0, true, 0);
        let mut bytes: usize = 0;
        let mut i: usize = 0;
        proof {
            assert(invalidation_views(entries@) + whole.0 =~= whole.0);
        }
        while i < inodes.len() && i < ENTRIES
            invariant
                views == self@.views,
                i <= inodes@.len(),
                i <= ENTRIES,
                entries@.len() == 0 ==> bytes == 0,
                entries@.len() > 1 ==> bytes <= BYTES,
                whole == batched(views, directories, inodes@, 0, true, 0),
                ({
                    let rest = batched(
                        views,
                        directories,
                        inodes@,
                        i as int,
                        entries@.len() == 0,
                        bytes as nat,
                    );
                    whole.0 == invalidation_views(entries@) + rest.0 && whole.1 == rest.1 && whole.2
                        == rest.2
                }),
            decreases inodes@.len() - i,
        {
            let ghost rest = batched(
                views,
                directories,
                inodes@,
                i as int,
                entries@.len() == 0,
                bytes as nat,
            );
            if let Some(one) = self.tell(directories, inodes[i]) {
                let size = one.name.as_str().as_bytes().len();
                if entries.len() > 0 && (bytes > BYTES || size > BYTES - bytes) {
                    proof {
                        assert(rest.0 =~= Seq::<InvalidationView>::empty());
                        assert(invalidation_views(entries@) + rest.0 =~= invalidation_views(
                            entries@,
                        ));
                    }
                    return (entries, i, false);
                }
                let ghost before = invalidation_views(entries@);
                bytes = bytes + size;
                entries.push(one);
                proof {
                    let next = batched(
                        views,
                        directories,
                        inodes@,
                        i + 1,
                        false,
                        bytes as nat,
                    );
                    assert(invalidation_views(entries@) =~= before.push(one@));
                    assert(before + (seq![one@] + next.0) =~= before.push(one@) + next.0);
                }
            }
            i = i + 1;
        }
        proof {
            assert(invalidation_views(entries@) + Seq::<InvalidationView>::empty()
                =~= invalidation_views(entries@));
        }
        let complete = i >= inodes.len();
        (entries, i, complete)
    }

    /// The next views that a change makes stale; all of them where no change is given.
    /// A batch looks at few index entries and copies few names, so that nobody waits
    /// for the index while the kernel is told.
    pub fn invalidation_batch(&self, change: Option<&MetadataChange>, cursor: InvalidationCursor) -> (batch:
        InvalidationBatch)
        requires
            self.wf(),
        ensures
            match change {
                Some(change) => concerned_batch(
                    self@.views,
                    key_views(self.index.keys@),
                    *change,
                    cursor,
                    batch,
                ),
                None => exists|ids: Seq<Id>| #[trigger]
                    lists_views(ids, self@.views) && whole_batch(self@.views, ids, cursor, batch),
            },
    {
        match change {
            Some(change) => {
                let (inodes, places) = self.select(change, &cursor.key);
                let (entries, stop, complete) = self.fill(
                    change.kind == ChangeKind::Directory,
                    &inodes,
                );
                let key = if stop > 0 {
                    Some(self.index.keys[places[stop - 1]].clone())
                } else {
                    cursor.key
                };
                InvalidationBatch {
                    entries,
                    next: InvalidationCursor { key, inode: cursor.inode },
                    complete,
                }
            },
            None => {
                let ids = self.views.ids();
                let mut inodes: Vec<u64> = Vec::new();
                let mut i: usize = 0;
                while i < ids.len()
                    invariant
                        i <= ids@.len(),
                        self.wf(),
                        forall|id: Id| ids@.contains(id) <==> self@.views.contains_key(id),
                        inodes@ == swept(ids@.take(i as int), cursor.inode),
                    decreases ids@.len() - i,
                {
                    let id = ids[i];
                    proof {
                        assert(ids@.contains(id));
                        assert(self@.residency.entries.contains_key(id));
                        assert(ids@.take(i + 1).drop_last() =~= ids@.take(i as int));
                        assert(ids@.take(i + 1).last() == id);
                    }
                    let skip = match cursor.inode {
                        Some(last) => id <= last as Id,
                        None => false,
                    };
                    if !skip {
                        inodes.push(id as u64);
                    }
                    i = i + 1;
                }
                proof {
                    assert(ids@.take(i as int) =~= ids@);
                }
                let (entries, stop, complete) = self.fill(false, &inodes);
                let inode = if stop > 0 {
                    Some(inodes[stop - 1])
                } else {
                    cursor.inode
                };
                proof {
                    assert(lists_views(ids@, self@.views)) by {
                        assert forall|j: int| 0 <= j < ids@.len() implies #[trigger] ids@[j]
                            <= u64::MAX by {
                            assert(ids@.contains(ids@[j]));
                            assert(self@.residency.entries.contains_key(ids@[j]));
                        }
                    }
                }
                InvalidationBatch {
                    entries,
                    next: InvalidationCursor { key: cursor.key, inode },
                    complete,
                }
            },
        }
    }

    /// The inodes of the identities that a change concerns, and their places in the
    /// index.
    fn select(&self, change: &MetadataChange, cursor: &Option<IdentityKey>) -> (found: (
        Vec<u64>,
        Vec<usize>,
    ))
        ensures
            ({
                let keys = selected(key_views(self.index.keys@), *change, *cursor);
                &&& found.0@ == inodes_of(keys)
                &&& found.1@.len() == keys.len()
                &&& forall|i: int|
                    0 <= i < keys.len() ==> found.1@[i] < self.index.keys@.len() && keys[i]
                        == self.index.keys@[(#[trigger] found.1@[i]) as int]@
            }),
    {
        let mut inodes: Vec<u64> = Vec::new();
        let mut places: Vec<usize> = Vec::new();
        let ghost keys = key_views(self.index.keys@);
        let mut i: usize = 0;
        proof {
            assert(inodes@ =~= inodes_of(selected(keys.take(0), *change, *cursor)));
        }
        while i < self.index.keys.len()
            invariant
                i <= self.index.keys@.len(),
                keys == key_views(self.index.keys@),
                ({
                    let some = selected(keys.take(i as int), *change, *cursor);
                    &&& inodes@ == inodes_of(some)
                    &&& places@.len() == some.len()
                    &&& forall|j: int|
                        0 <= j < some.len() ==> places@[j] < self.index.keys@.len() && some[j]
                            == self.index.keys@[(#[trigger] places@[j]) as int]@
                }),
            decreases self.index.keys@.len() - i,
        {
            let key = &self.index.keys[i];
            let ghost some = selected(keys.take(i as int), *change, *cursor);
            proof {
                assert(keys.take(i + 1).drop_last() =~= keys.take(i as int));
                assert(keys.take(i + 1).last() == key@);
            }
            let about = key.account == change.scope.account && key.provider
                == change.scope.provider && key.collection == change.scope.collection && (
            change.kind == ChangeKind::Scope || key.item == change.identity);
            let later = match cursor {
                Some(last) => last.before(key),
                None => true,
            };
            if about && later {
                inodes.push(key.inode);
                places.push(i);
                proof {
                    assert(inodes@ =~= inodes_of(some.push(key@)));
                }
            }
            i = i + 1;
        }
        proof {
            assert(keys.take(i as int) =~= keys);
        }
        (inodes, places)
    }
}

/// The identities strictly increase.
pub open spec fn in_order(keys: Seq<IdentityKeyView>) -> bool {
    forall|i: int, j: int|
        0 <= i < j < keys.len() ==> key_less(#[trigger] keys[i], #[trigger] keys[j])
}

/// A sweep that goes on behind the last identity of a batch meets exactly the
/// identities that are left, and every batch of a sweep that has any left advances.
pub proof fn sweeps_meet_every_identity_once(
    keys: Seq<IdentityKeyView>,
    change: MetadataChange,
    cursor: Option<IdentityKey>,
    stop: int,
    last: IdentityKey,
    views: Map<Id, ResolvedView>,
    directories: bool,
)
    requires
        in_order(keys),
        0 < stop <= selected(keys, change, cursor).len(),
        last@ == selected(keys, change, cursor)[stop - 1],
    ensures
        selected(keys, change, Some(last)) == selected(keys, change, cursor).skip(stop),
        batched(views, directories, inodes_of(selected(keys, change, cursor)), 0, true, 0).1 > 0,
{
    lemma_rest(keys, change, cursor, stop, last);
    lemma_advances(views, directories, inodes_of(selected(keys, change, cursor)), 0, true, 0);
}

proof fn lemma_advances(
    views: Map<Id, ResolvedView>,
    directories: bool,
    inodes: Seq<u64>,
    i: int,
    empty: bool,
    bytes: nat,
)
    requires
        0 <= i,
    ensures
        batched(views, directories, inodes, i, empty, bytes).1 >= i,
        i < inodes.len() && i < ENTRIES && empty ==> batched(
            views,
            directories,
            inodes,
            i,
            empty,
            bytes,
        ).1 > i,
    decreases inodes.len() - i,
{
    if i < inodes.len() && i < ENTRIES {
        match told(views, directories, inodes[i]) {
            None => {
                lemma_advances(views, directories, inodes, i + 1, empty, bytes);
            },
            Some(one) => {
                lemma_advances(
                    views,
                    directories,
                    inodes,
                    i + 1,
                    false,
                    bytes + encode_utf8(one.name).len(),
                );
            },
        }
    }
}

proof fn lemma_members(
    keys: Seq<IdentityKeyView>,
    change: MetadataChange,
    cursor: Option<IdentityKey>,
)
    ensures
        forall|i: int|
            0 <= i < selected(keys, change, cursor).len() ==> keys.contains(
                #[trigger] selected(keys, change, cursor)[i],
            ) && behind(cursor, selected(keys, change, cursor)[i]),
    decreases keys.len(),
{
    if keys.len() > 0 {
        lemma_members(keys.drop_last(), change, cursor);
        let all = selected(keys, change, cursor);
        let front = selected(keys.drop_last(), change, cursor);
        assert forall|i: int| 0 <= i < all.len() implies keys.contains(#[trigger] all[i]) && behind(
            cursor,
            all[i],
        ) by {
            if i < front.len() {
                assert(all[i] == front[i]);
                let j = choose|j: int|
                    0 <= j < keys.drop_last().len() && keys.drop_last()[j] == front[i];
                assert(keys[j] == all[i]);
            } else {
                assert(keys[keys.len() - 1] == all[i]);
            }
        }
    }
}

proof fn lemma_rest(
    keys: Seq<IdentityKeyView>,
    change: MetadataChange,
    cursor: Option<IdentityKey>,
    stop: int,
    last: IdentityKey,
)
    requires
        in_order(keys),
        0 < stop <= selected(keys, change, cursor).len(),
        last@ == selected(keys, change, cursor)[stop - 1],
    ensures
        selected(keys, change, Some(last)) == selected(keys, change, cursor).skip(stop),
    decreases keys.len(),
{
    let before = keys.drop_last();
    let end = keys.last();
    let front = selected(before, change, cursor);
    let all = selected(keys, change, cursor);
    lemma_members(before, change, cursor);
    assert forall|i: int| 0 <= i < front.len() implies key_less(#[trigger] front[i], end) by {
        let j = choose|j: int| 0 <= j < before.len() && before[j] == front[i];
        assert(key_less(keys[j], keys[keys.len() - 1]));
    }
    if concerned(change, end) && behind(cursor, end) {
        if stop == all.len() {
            lemma_none_behind(before, change, last);
            crate::filesystem::views::lemma_key_order(end, end);
            assert(selected(keys, change, Some(last)) =~= all.skip(stop));
        } else {
            lemma_rest(before, change, cursor, stop, last);
            assert(last@ == front[stop - 1]);
            assert(behind(Some(last), end));
            assert(selected(keys, change, Some(last)) =~= all.skip(stop));
        }
    } else {
        lemma_rest(before, change, cursor, stop, last);
        if concerned(change, end) {
            let place = all[stop - 1];
            assert(behind(cursor, place));
            assert(key_less(place, end));
            crate::filesystem::views::lemma_key_transitive(cursor->0@, place, end);
        }
    }
}

/// Nothing of what comes before the last identity comes behind it.
proof fn lemma_none_behind(keys: Seq<IdentityKeyView>, change: MetadataChange, last: IdentityKey)
    requires
        forall|i: int| 0 <= i < keys.len() ==> key_less(#[trigger] keys[i], last@),
    ensures
        selected(keys, change, Some(last)) == Seq::<IdentityKeyView>::empty(),
    decreases keys.len(),
{
    if keys.len() > 0 {
        let end = keys.last();
        assert(key_less(keys[keys.len() - 1], last@));
        crate::filesystem::views::lemma_key_order(end, last@);
        lemma_none_behind(keys.drop_last(), change, last);
    }
}

/// What the kernel is told of some inodes, one by one.
pub open spec fn all_told(
    views: Map<Id, ResolvedView>,
    directories: bool,
    inodes: Seq<u64>,
) -> Seq<InvalidationView>
    decreases inodes.len(),
{
    if inodes.len() == 0 {
        Seq::empty()
    } else {
        let rest = all_told(views, directories, inodes.drop_first());
        match told(views, directories, inodes[0]) {
            Some(one) => seq![one] + rest,
            None => rest,
        }
    }
}

/// What some batches show, one behind the other.
pub open spec fn shown(batches: Seq<InvalidationBatch>) -> Seq<InvalidationView>
    decreases batches.len(),
{
    if batches.len() == 0 {
        Seq::empty()
    } else {
        invalidation_views(batches[0].entries@) + shown(batches.drop_first())
    }
}

/// Where the `i`th batch of a sweep starts.
pub open spec fn started(
    cursor: InvalidationCursor,
    batches: Seq<InvalidationBatch>,
    i: int,
) -> InvalidationCursor {
    if i == 0 {
        cursor
    } else {
        batches[i - 1].next
    }
}

/// The batches of a sweep: the last one alone is complete.
pub open spec fn is_sweep(batches: Seq<InvalidationBatch>) -> bool {
    &&& batches.len() > 0
    &&& forall|i: int|
        0 <= i < batches.len() ==> (#[trigger] batches[i]).complete == (i == batches.len() - 1)
}

proof fn lemma_told_join(
    views: Map<Id, ResolvedView>,
    directories: bool,
    front: Seq<u64>,
    back: Seq<u64>,
)
    ensures
        all_told(views, directories, front + back) == all_told(views, directories, front)
            + all_told(views, directories, back),
    decreases front.len(),
{
    if front.len() == 0 {
        assert(front + back =~= back);
        assert(all_told(views, directories, front) + all_told(views, directories, back)
            =~= all_told(views, directories, back));
    } else {
        assert((front + back).drop_first() =~= front.drop_first() + back);
        lemma_told_join(views, directories, front.drop_first(), back);
        let rest = all_told(views, directories, front.drop_first());
        let end = all_told(views, directories, back);
        if let Some(one) = told(views, directories, front[0]) {
            assert(seq![one] + (rest + end) =~= (seq![one] + rest) + end);
        }
    }
}

/// A batch shows the inodes up to where it stops, and is complete where that is the end.
proof fn lemma_batch_front(
    views: Map<Id, ResolvedView>,
    directories: bool,
    inodes: Seq<u64>,
    i: int,
    empty: bool,
    bytes: nat,
)
    requires
        0 <= i <= inodes.len(),
    ensures
        ({
            let (entries, stop, complete) = batched(views, directories, inodes, i, empty, bytes);
            &&& i <= stop <= inodes.len()
            &&& entries == all_told(views, directories, inodes.subrange(i, stop))
            &&& complete == (stop == inodes.len())
        }),
    decreases inodes.len() - i,
{
    let stop = batched(views, directories, inodes, i, empty, bytes).1;
    if i < inodes.len() && i < ENTRIES {
        match told(views, directories, inodes[i]) {
            None => {
                lemma_batch_front(views, directories, inodes, i + 1, empty, bytes);
                assert(inodes.subrange(i, stop).drop_first() =~= inodes.subrange(i + 1, stop));
            },
            Some(one) => {
                let size = encode_utf8(one.name).len();
                if !empty && bytes + size > BYTES {
                    assert(inodes.subrange(i, stop) =~= Seq::<u64>::empty());
                } else {
                    lemma_batch_front(views, directories, inodes, i + 1, false, bytes + size);
                    assert(inodes.subrange(i, stop).drop_first() =~= inodes.subrange(i + 1, stop));
                }
            },
        }
    } else {
        assert(inodes.subrange(i, stop) =~= Seq::<u64>::empty());
    }
}

/// What one batch and everything behind it show, where the batch stops before the end.
proof fn lemma_batch_split(views: Map<Id, ResolvedView>, directories: bool, inodes: Seq<u64>)
    ensures
        ({
            let (entries, stop, complete) = batched(views, directories, inodes, 0, true, 0);
            &&& 0 <= stop <= inodes.len()
            &&& !complete ==> 0 < stop
            &&& entries + all_told(views, directories, inodes.skip(stop)) == all_told(
                views,
                directories,
                inodes,
            )
            &&& complete ==> entries == all_told(views, directories, inodes)
        }),
{
    let stop = batched(views, directories, inodes, 0, true, 0).1;
    lemma_batch_front(views, directories, inodes, 0, true, 0);
    lemma_advances(views, directories, inodes, 0, true, 0);
    lemma_told_join(views, directories, inodes.subrange(0, stop), inodes.skip(stop));
    assert(inodes.subrange(0, stop) + inodes.skip(stop) =~= inodes);
    if stop == inodes.len() {
        assert(inodes.subrange(0, stop) =~= inodes);
    }
}

/// A whole sweep over what a change concerns shows each view exactly once for every
/// identity of it that is concerned, in the order of the index, however many batches it
/// takes while the views stay as they are.
pub proof fn sweeps_show_every_concerned_identity_once(
    views: Map<Id, ResolvedView>,
    keys: Seq<IdentityKeyView>,
    change: MetadataChange,
    cursor: InvalidationCursor,
    batches: Seq<InvalidationBatch>,
)
    requires
        in_order(keys),
        is_sweep(batches),
        forall|i: int|
            0 <= i < batches.len() ==> concerned_batch(
                views,
                keys,
                change,
                started(cursor, batches, i),
                #[trigger] batches[i],
            ),
    ensures
        shown(batches) == all_told(
            views,
            change.kind == ChangeKind::Directory,
            inodes_of(selected(keys, change, cursor.key)),
        ),
        cursor.key is None ==> selected(keys, change, cursor.key) == keys.filter(
            |key: IdentityKeyView| concerned(change, key),
        ),
    decreases batches.len(),
{
    let directories = change.kind == ChangeKind::Directory;
    let left = selected(keys, change, cursor.key);
    let first = batches[0];
    let (entries, stop, complete) = batched(views, directories, inodes_of(left), 0, true, 0);
    assert(concerned_batch(views, keys, change, started(cursor, batches, 0), first));
    lemma_batch_split(views, directories, inodes_of(left));
    let rest = batches.drop_first();
    if complete {
        assert(batches.len() == 1);
        assert(shown(rest) =~= Seq::<InvalidationView>::empty());
        assert(shown(batches) =~= entries);
    } else {
        let last = first.next.key->0;
        lemma_rest(keys, change, cursor.key, stop, last);
        assert(inodes_of(selected(keys, change, Some(last))) =~= inodes_of(left).skip(stop));
        assert forall|i: int| 0 <= i < rest.len() implies concerned_batch(
            views,
            keys,
            change,
            started(first.next, rest, i),
            #[trigger] rest[i],
        ) by {
            assert(rest[i] == batches[i + 1]);
            if i > 0 {
                assert(rest[i - 1] == batches[i]);
            }
        }
        assert forall|i: int| 0 <= i < rest.len() implies (#[trigger] rest[i]).complete == (i
            == rest.len() - 1) by {
            assert(rest[i] == batches[i + 1]);
        }
        sweeps_show_every_concerned_identity_once(views, keys, change, first.next, rest);
    }
    if cursor.key is None {
        lemma_selected_filter(keys, change, cursor.key);
    }
}

proof fn lemma_selected_filter(
    keys: Seq<IdentityKeyView>,
    change: MetadataChange,
    cursor: Option<IdentityKey>,
)
    requires
        cursor is None,
    ensures
        selected(keys, change, cursor) == keys.filter(
            |key: IdentityKeyView| concerned(change, key),
        ),
    decreases keys.len(),
{
    reveal(Seq::filter);
    if keys.len() > 0 {
        lemma_selected_filter(keys.drop_last(), change, cursor);
    }
}

/// A whole sweep over all views shows each of them exactly once, in order, however many
/// batches it takes while the views stay as they are.
pub proof fn whole_sweeps_show_every_view_once(
    views: Map<Id, ResolvedView>,
    ids: Seq<Id>,
    cursor: InvalidationCursor,
    batches: Seq<InvalidationBatch>,
)
    requires
        lists_views(ids, views),
        is_sweep(batches),
        forall|i: int|
            0 <= i < batches.len() ==> whole_batch(
                views,
                ids,
                started(cursor, batches, i),
                #[trigger] batches[i],
            ),
    ensures
        shown(batches) == all_told(views, false, swept(ids, cursor.inode)),
        cursor.inode is None ==> swept(ids, cursor.inode) == Seq::new(
            ids.len(),
            |i: int| ids[i] as u64,
        ),
    decreases batches.len(),
{
    let left = swept(ids, cursor.inode);
    let first = batches[0];
    let (entries, stop, complete) = batched(views, false, left, 0, true, 0);
    assert(whole_batch(views, ids, started(cursor, batches, 0), first));
    lemma_batch_split(views, false, left);
    let rest = batches.drop_first();
    if complete {
        assert(batches.len() == 1);
        assert(shown(rest) =~= Seq::<InvalidationView>::empty());
        assert(shown(batches) =~= entries);
    } else {
        lemma_swept_rest(ids, cursor.inode, stop);
        assert forall|i: int| 0 <= i < rest.len() implies whole_batch(
            views,
            ids,
            started(first.next, rest, i),
            #[trigger] rest[i],
        ) by {
            assert(rest[i] == batches[i + 1]);
            if i > 0 {
                assert(rest[i - 1] == batches[i]);
            }
        }
        assert forall|i: int| 0 <= i < rest.len() implies (#[trigger] rest[i]).complete == (i
            == rest.len() - 1) by {
            assert(rest[i] == batches[i + 1]);
        }
        whole_sweeps_show_every_view_once(views, ids, first.next, rest);
    }
    if cursor.inode is None {
        lemma_swept_all(ids, cursor.inode);
    }
}

proof fn lemma_swept_all(ids: Seq<Id>, cursor: Option<u64>)
    requires
        cursor is None,
    ensures
        swept(ids, cursor) == Seq::new(ids.len(), |i: int| ids[i] as u64),
    decreases ids.len(),
{
    if ids.len() > 0 {
        lemma_swept_all(ids.drop_last(), cursor);
    }
    assert(swept(ids, cursor) =~= Seq::new(ids.len(), |i: int| ids[i] as u64));
}

proof fn lemma_swept_members(ids: Seq<Id>, cursor: Option<u64>)
    requires
        forall|i: int| 0 <= i < ids.len() ==> #[trigger] ids[i] <= u64::MAX,
    ensures
        forall|i: int|
            0 <= i < swept(ids, cursor).len() ==> ids.contains(
                (#[trigger] swept(ids, cursor)[i]) as Id,
            ) && (cursor is Some ==> cursor->0 < swept(ids, cursor)[i]),
    decreases ids.len(),
{
    if ids.len() > 0 {
        let before = ids.drop_last();
        lemma_swept_members(before, cursor);
        let all = swept(ids, cursor);
        let front = swept(before, cursor);
        assert forall|i: int| 0 <= i < all.len() implies ids.contains((#[trigger] all[i]) as Id) && (
        cursor is Some ==> cursor->0 < all[i]) by {
            if i < front.len() {
                assert(all[i] == front[i]);
                let j = choose|j: int| 0 <= j < before.len() && before[j] == front[i] as Id;
                assert(ids[j] == all[i] as Id);
            } else {
                assert(ids[ids.len() - 1] == all[i] as Id);
            }
        }
    }
}

proof fn lemma_swept_rest(ids: Seq<Id>, cursor: Option<u64>, stop: int)
    requires
        crate::journal::tables::increasing(ids),
        forall|i: int| 0 <= i < ids.len() ==> #[trigger] ids[i] <= u64::MAX,
        0 < stop <= swept(ids, cursor).len(),
    ensures
        swept(ids, Some(swept(ids, cursor)[stop - 1])) == swept(ids, cursor).skip(stop),
    decreases ids.len(),
{
    let before = ids.drop_last();
    let end = ids.last();
    let front = swept(before, cursor);
    let all = swept(ids, cursor);
    let last = all[stop - 1];
    assert(ids[ids.len() - 1] <= u64::MAX);
    lemma_swept_members(before, cursor);
    assert forall|i: int| 0 <= i < front.len() implies (#[trigger] front[i]) < end by {
        let j = choose|j: int| 0 <= j < before.len() && before[j] == front[i] as Id;
        assert(ids[j] < ids[ids.len() - 1]);
    }
    if all.len() > front.len() {
        if stop == all.len() {
            assert(last == end as u64);
            lemma_swept_none(before, last);
            assert(swept(ids, Some(last)) =~= all.skip(stop));
        } else {
            assert(last == front[stop - 1]);
            lemma_swept_rest(before, cursor, stop);
            assert(swept(ids, Some(last)) =~= all.skip(stop));
        }
    } else {
        lemma_swept_rest(before, cursor, stop);
        assert(cursor->0 < front[stop - 1]);
    }
}

proof fn lemma_swept_none(ids: Seq<Id>, last: u64)
    requires
        forall|i: int| 0 <= i < ids.len() ==> #[trigger] ids[i] <= last,
    ensures
        swept(ids, Some(last)) == Seq::<u64>::empty(),
    decreases ids.len(),
{
    if ids.len() > 0 {
        assert(ids[ids.len() - 1] <= last);
        lemma_swept_none(ids.drop_last(), last);
    }
}

/// Views that a mount holds before it starts to shed some.
pub const DEFAULT_CEILING: usize = 200_000;

/// How many entries one pass asks the kernel to drop.
pub const SHED_BATCH: usize = 512;

/// The ceiling that was configured, or the default where it is no number.
pub fn configured_ceiling(text: Option<&str>) -> (ceiling: usize)
    ensures
        ceiling == (match text {
            Some(text) => match number_within(text@, usize::MAX as u64) {
                Some(value) => value as usize,
                None => DEFAULT_CEILING,
            },
            None => DEFAULT_CEILING,
        }),
{
    match text {
        Some(text) => match parse_within(&characters(text), usize::MAX as u64) {
            Some(value) => value as usize,
            None => DEFAULT_CEILING,
        },
        None => DEFAULT_CEILING,
    }
}

/// A change concerns its own item, or every item of its scope, and nothing of another
/// account, provider or collection.
pub proof fn changes_concern_their_scope(change: MetadataChange, key: IdentityKeyView)
    ensures
        concerned(change, key) ==> key.account == change.scope.account@ && key.provider
            == change.scope.provider@ && key.collection == change.scope.collection@,
        key.account == change.scope.account@ && key.provider == change.scope.provider@
            && key.collection == change.scope.collection@ ==> {
            &&& change.kind == ChangeKind::Scope ==> concerned(change, key)
            &&& change.kind != ChangeKind::Scope ==> (concerned(change, key) <==> key.item
                == change.identity@)
        },
{
}

/// The kernel is told of every view that is shown but the root, as it is shown. Where only
/// the entries of a directory changed, it is told of directories alone, and not that their
/// own entry is stale.
pub proof fn the_kernel_is_told_of_views(
    views: Map<Id, ResolvedView>,
    directories: bool,
    inode: u64,
)
    ensures
        told(views, directories, inode) is Some <==> inode != 1 && views.contains_key(inode as Id)
            && (!directories || views[inode as Id].node.kind == NodeKind::Folder),
        told(views, directories, inode) matches Some(one) ==> {
            let view = views[inode as Id];
            &&& one.inode == inode && one.parent == view.parent && one.name == view.name@
            &&& one.directory <==> view.node.kind == NodeKind::Folder
            &&& one.entry <==> !directories
        },
{
}

/// A sweep meets exactly the identities that the change concerns and that come behind its
/// cursor, and a whole sweep exactly the views behind its cursor.
pub proof fn sweeps_leave_nothing_out(
    keys: Seq<IdentityKeyView>,
    change: MetadataChange,
    cursor: Option<IdentityKey>,
    key: IdentityKeyView,
)
    ensures
        selected(keys, change, cursor).contains(key) <==> keys.contains(key) && concerned(
            change,
            key,
        ) && (cursor is None || key_less(cursor->0@, key)),
    decreases keys.len(),
{
    if keys.len() > 0 {
        let rest = keys.drop_last();
        let front = selected(rest, change, cursor);
        let all = selected(keys, change, cursor);
        sweeps_leave_nothing_out(rest, change, cursor, key);
        if front.contains(key) {
            let k = choose|k: int| 0 <= k < front.len() && front[k] == key;
            assert(all[k] == key);
        }
        if all.contains(key) {
            let k = choose|k: int| 0 <= k < all.len() && all[k] == key;
            if k < front.len() {
                assert(front[k] == key);
            }
        }
        if rest.contains(key) {
            let k = choose|k: int| 0 <= k < rest.len() && rest[k] == key;
            assert(keys[k] == key);
        }
        if keys.contains(key) {
            let k = choose|k: int| 0 <= k < keys.len() && keys[k] == key;
            if k < rest.len() {
                assert(rest[k] == key);
            }
        }
        if key == keys.last() {
            assert(keys[keys.len() - 1] == key);
            if concerned(change, key) && behind(cursor, key) {
                assert(all[front.len() as int] == key);
            }
        }
    }
}

/// A batch looks at no more than 128 views, and stops early only where its names would be too
/// long together.
pub proof fn batches_are_bounded(
    views: Map<Id, ResolvedView>,
    directories: bool,
    inodes: Seq<u64>,
    i: int,
    empty: bool,
    bytes: nat,
)
    requires
        0 <= i,
    ensures
        ({
            let (entries, stop, complete) = batched(views, directories, inodes, i, empty, bytes);
            &&& entries.len() <= stop - i
            &&& i <= 128 ==> stop <= 128 || stop == i
            &&& i <= inodes.len() ==> (complete <==> stop == inodes.len())
            &&& !complete && stop < 128 ==> told(views, directories, inodes[stop]) is Some
        }),
    decreases inodes.len() - i,
{
    if i < inodes.len() && i < ENTRIES {
        if let Some(one) = told(views, directories, inodes[i]) {
            batches_are_bounded(
                views,
                directories,
                inodes,
                i + 1,
                false,
                bytes + encode_utf8(one.name).len(),
            );
        } else {
            batches_are_bounded(views, directories, inodes, i + 1, empty, bytes);
        }
    }
}

} // verus!
