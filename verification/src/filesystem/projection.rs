//! What a writable mount shows of its journal. A committed frontier is published as a
//! whole, with every side of a transfer of identities, or not at all.
use crate::journal::namespace::{owns, presents};
use crate::journal::publication::{NamespacePublication, NamespaceSnapshot};
use crate::journal::records::{JournalError, NamespaceObject, WorkingFile};
use crate::journal::tables::Table;
use crate::model::{Id, Scope, ScopeView};
use vstd::prelude::*;

verus! {

/// What a filesystem operation is answered.
#[derive(Debug, Clone, Copy, PartialEq, Eq, Structural)]
pub enum WriteError {
    NoSpace,
    NotFound,
    Access,
    Invalid,
    Stale,
    Failure,
    NoDevice,
    NotSupported,
    Again,
    TimedOut,
    Loop,
}

/// What a filesystem operation is answered when the journal refuses it.
pub open spec fn write_error(error: JournalError) -> WriteError {
    match error {
        JournalError::Quota => WriteError::NoSpace,
        JournalError::Missing => WriteError::NotFound,
        JournalError::Account => WriteError::Access,
        JournalError::Intent => WriteError::Invalid,
        JournalError::Stale => WriteError::Stale,
        _ => WriteError::Failure,
    }
}

/// What a filesystem operation is answered when the journal refuses it.
pub fn answer_for(error: JournalError) -> (answer: WriteError)
    ensures
        answer == write_error(error),
{
    match error {
        JournalError::Quota => WriteError::NoSpace,
        JournalError::Missing => WriteError::NotFound,
        JournalError::Account => WriteError::Access,
        JournalError::Intent => WriteError::Invalid,
        JournalError::Stale => WriteError::Stale,
        _ => WriteError::Failure,
    }
}

/// One state of a working stream is later than another: it has a higher generation, or
/// the same one with everything sealed.
pub open spec fn later(a: WorkingFile, b: WorkingFile) -> bool {
    a.generation > b.generation || (a.generation == b.generation && !a.dirty && b.dirty)
}

/// Whether one state of a working stream is later than another.
pub fn is_later(a: &WorkingFile, b: &WorkingFile) -> (late: bool)
    ensures
        late == later(*a, *b),
{
    a.generation > b.generation || (a.generation == b.generation && !a.dirty && b.dirty)
}

/// What a mount shows.
pub struct ProjectionView {
    pub objects: Map<Id, NamespaceObject>,
    pub files: Map<Id, WorkingFile>,
    pub frontier: u64,
}

/// What a mount shows of its journal, up to a committed frontier.
pub struct Projection {
    pub objects: Table<NamespaceObject>,
    pub files: Table<WorkingFile>,
    pub frontier: u64,
}

impl View for Projection {
    type V = ProjectionView;

    open spec fn view(&self) -> ProjectionView {
        ProjectionView {
            objects: self.objects@,
            files: self.files@,
            frontier: self.frontier,
        }
    }
}

/// The stream of an object comes with it.
pub open spec fn complete(snapshot: NamespaceSnapshot) -> bool {
    match snapshot.working {
        Some(file) => snapshot.object.working_file == Some(file.id) && file.scope@
            == snapshot.object.scope@ && file.node.id@ == snapshot.object.node.id@,
        None => snapshot.object.working_file is None,
    }
}

/// The snapshot does not fit what is shown: its stream is missing, or it moves a local
/// identity.
pub open spec fn unfit(shown: ProjectionView, snapshot: NamespaceSnapshot) -> bool {
    let object = snapshot.object;
    ||| !complete(snapshot)
    ||| shown.objects.contains_key(object.id) && !presents(
        shown.objects[object.id],
        object.scope@,
        object.node.id@,
    )
    ||| exists|id: Id| #[trigger]
        shown.objects.contains_key(id) && id != object.id && presents(
            shown.objects[id],
            object.scope@,
            object.node.id@,
        )
}

/// The stream of the snapshot is later than the one shown.
pub open spec fn later_stream(shown: ProjectionView, snapshot: NamespaceSnapshot) -> bool {
    match snapshot.working {
        Some(file) => !shown.files.contains_key(file.id) || later(file, shown.files[file.id]),
        None => false,
    }
}

/// The snapshot is newer than what is shown.
pub open spec fn newer(shown: ProjectionView, snapshot: NamespaceSnapshot) -> bool {
    let object = snapshot.object;
    if shown.objects.contains_key(object.id) {
        let known = shown.objects[object.id];
        object.revision > known.revision || (object.revision == known.revision && later_stream(
            shown,
            snapshot,
        ))
    } else {
        true
    }
}

/// Two snapshots cannot both be published: they show one object twice, or give one
/// local or provider identity to two objects.
pub open spec fn collide(shown: ProjectionView, a: NamespaceSnapshot, b: NamespaceSnapshot) -> bool {
    ||| a.object.id == b.object.id
    ||| newer(shown, a) && newer(shown, b) && (presents(
        a.object,
        b.object.scope@,
        b.object.node.id@,
    ) || (b.object.remote_owned && b.object.remote is Some && owns(
        a.object,
        b.object.scope@,
        b.object.remote->0.id@,
    )))
}

/// The object is among the newer snapshots.
pub open spec fn renewed(shown: ProjectionView, batch: Seq<NamespaceSnapshot>, id: Id) -> bool {
    exists|i: int|
        0 <= i < batch.len() && (#[trigger] batch[i]).object.id == id && newer(shown, batch[i])
}

/// The snapshot takes a provider identity from an object that the batch leaves as it is.
pub open spec fn robs(
    shown: ProjectionView,
    batch: Seq<NamespaceSnapshot>,
    snapshot: NamespaceSnapshot,
) -> bool {
    newer(shown, snapshot) && snapshot.object.remote_owned && snapshot.object.remote is Some
        && exists|id: Id| #[trigger]
        shown.objects.contains_key(id) && id != snapshot.object.id && !renewed(shown, batch, id)
            && owns(
            shown.objects[id],
            snapshot.object.scope@,
            snapshot.object.remote->0.id@,
        )
}

/// The batch is incomplete or does not fit.
pub open spec fn broken(shown: ProjectionView, batch: Seq<NamespaceSnapshot>) -> bool {
    ||| exists|i: int| 0 <= i < batch.len() && unfit(shown, #[trigger] batch[i])
    ||| exists|i: int, j: int|
        0 <= i < j < batch.len() && collide(shown, #[trigger] batch[i], #[trigger] batch[j])
    ||| exists|i: int| 0 <= i < batch.len() && robs(shown, batch, #[trigger] batch[i])
}

/// What is shown once one snapshot was applied.
pub open spec fn applied(shown: ProjectionView, snapshot: NamespaceSnapshot) -> ProjectionView {
    let object = snapshot.object;
    let files = if shown.objects.contains_key(object.id)
        && shown.objects[object.id].working_file is Some {
        shown.files.remove(shown.objects[object.id].working_file->0)
    } else {
        shown.files
    };
    ProjectionView {
        objects: shown.objects.insert(object.id, object),
        files: match snapshot.working {
            Some(file) => files.insert(file.id, file),
            None => files,
        },
        ..shown
    }
}

/// What is shown once the newer ones of some snapshots were applied. Whether one is
/// newer is judged by what was shown before the batch.
pub open spec fn applied_all(
    before: ProjectionView,
    shown: ProjectionView,
    batch: Seq<NamespaceSnapshot>,
) -> ProjectionView
    decreases batch.len(),
{
    if batch.len() == 0 {
        shown
    } else {
        let front = applied_all(before, shown, batch.drop_last());
        if newer(before, batch.last()) {
            applied(front, batch.last())
        } else {
            front
        }
    }
}

/// Some snapshot is newer than what is shown.
pub open spec fn any_newer(shown: ProjectionView, batch: Seq<NamespaceSnapshot>) -> bool {
    exists|i: int| 0 <= i < batch.len() && newer(shown, #[trigger] batch[i])
}

/// What is shown once a frontier was published, and whether anything changed.
pub open spec fn published(shown: ProjectionView, batch: NamespacePublication) -> Result<
    (ProjectionView, bool),
    WriteError,
> {
    if batch.after > shown.frontier || batch.through < batch.after {
        Err(WriteError::Stale)
    } else if batch.through <= shown.frontier {
        Ok((shown, false))
    } else if broken(shown, batch.objects@) {
        Err(WriteError::Failure)
    } else {
        Ok(
            (
                ProjectionView {
                    frontier: batch.through,
                    ..applied_all(shown, shown, batch.objects@)
                },
                any_newer(shown, batch.objects@),
            ),
        )
    }
}

/// Whether the object presents this local identity.
fn is_presented(object: &NamespaceObject, scope: &Scope, item: &String) -> (is: bool)
    ensures
        is == presents(*object, scope@, item@),
{
    object.scope.same(scope) && object.node.id == *item
}

/// Whether the object owns this provider identity.
fn is_owned(object: &NamespaceObject, scope: &Scope, item: &String) -> (is: bool)
    ensures
        is == owns(*object, scope@, item@),
{
    object.remote_owned && match &object.remote {
        Some(remote) => object.scope.same(scope) && remote.id == *item,
        None => false,
    }
}

impl Projection {
    /// Nothing is shown.
    pub fn new() -> (projection: Self)
        ensures
            projection@.objects == Map::<Id, NamespaceObject>::empty(),
            projection@.files == Map::<Id, WorkingFile>::empty(),
            projection@.frontier == 0,
    {
        Projection { objects: Table::new(), files: Table::new(), frontier: 0 }
    }

    /// The object with this local identity.
    pub fn local_object(&self, scope: &Scope, item: &String) -> (found: Option<&NamespaceObject>)
        ensures
            match found {
                Some(object) => presents(*object, scope@, item@) && exists|id: Id| #[trigger]
                    self@.objects.contains_key(id) && self@.objects[id] == *object,
                None => forall|id: Id| #[trigger]
                    self@.objects.contains_key(id) ==> !presents(
                        self@.objects[id],
                        scope@,
                        item@,
                    ),
            },
    {
        let ids = self.objects.ids();
        let mut i: usize = 0;
        while i < ids.len()
            invariant
                i <= ids@.len(),
                forall|id: Id| ids@.contains(id) <==> self@.objects.contains_key(id),
                forall|j: int|
                    0 <= j < i ==> !presents(
                        self@.objects[#[trigger] ids@[j]],
                        scope@,
                        item@,
                    ),
            decreases ids@.len() - i,
        {
            proof {
                assert(ids@.contains(ids@[i as int]));
            }
            if let Some(object) = self.objects.get(ids[i]) {
                if is_presented(object, scope, item) {
                    proof {
                        assert(self@.objects.contains_key(ids@[i as int]));
                    }
                    return Some(object);
                }
            }
            i = i + 1;
        }
        proof {
            assert forall|id: Id| #[trigger] self@.objects.contains_key(id) implies !presents(
                self@.objects[id],
                scope@,
                item@,
            ) by {
                assert(ids@.contains(id));
                let j = choose|j: int| 0 <= j < ids@.len() && ids@[j] == id;
                assert(!presents(self@.objects[ids@[j]], scope@, item@));
            }
        }
        None
    }

    /// The object that owns this provider identity.
    pub fn owner(&self, scope: &Scope, item: &String) -> (found: Option<Id>)
        ensures
            match found {
                Some(id) => self@.objects.contains_key(id) && owns(
                    self@.objects[id],
                    scope@,
                    item@,
                ),
                None => forall|id: Id| #[trigger]
                    self@.objects.contains_key(id) ==> !owns(self@.objects[id], scope@, item@),
            },
    {
        let ids = self.objects.ids();
        let mut i: usize = 0;
        while i < ids.len()
            invariant
                i <= ids@.len(),
                forall|id: Id| ids@.contains(id) <==> self@.objects.contains_key(id),
                forall|j: int|
                    0 <= j < i ==> !owns(self@.objects[#[trigger] ids@[j]], scope@, item@),
            decreases ids@.len() - i,
        {
            proof {
                assert(ids@.contains(ids@[i as int]));
            }
            if let Some(object) = self.objects.get(ids[i]) {
                if is_owned(object, scope, item) {
                    return Some(ids[i]);
                }
            }
            i = i + 1;
        }
        proof {
            assert forall|id: Id| #[trigger] self@.objects.contains_key(id) implies !owns(
                self@.objects[id],
                scope@,
                item@,
            ) by {
                assert(ids@.contains(id));
                let j = choose|j: int| 0 <= j < ids@.len() && ids@[j] == id;
                assert(!owns(self@.objects[ids@[j]], scope@, item@));
            }
        }
        None
    }

    /// Whether a snapshot does not fit what is shown.
    fn is_unfit(&self, snapshot: &NamespaceSnapshot) -> (bad: bool)
        ensures
            bad == unfit(self@, *snapshot),
    {
        let object = &snapshot.object;
        let whole = match &snapshot.working {
            Some(file) => match object.working_file {
                Some(id) => id == file.id && file.scope.same(&object.scope) && file.node.id
                    == object.node.id,
                None => false,
            },
            None => object.working_file.is_none(),
        };
        if !whole {
            return true;
        }
        if let Some(known) = self.objects.get(object.id) {
            if !is_presented(known, &object.scope, &object.node.id) {
                return true;
            }
        }
        let ids = self.objects.ids();
        let mut i: usize = 0;
        while i < ids.len()
            invariant
                i <= ids@.len(),
                object == &snapshot.object,
                forall|id: Id| ids@.contains(id) <==> self@.objects.contains_key(id),
                forall|j: int|
                    0 <= j < i ==> (#[trigger] ids@[j]) == object.id || !presents(
                        self@.objects[ids@[j]],
                        object.scope@,
                        object.node.id@,
                    ),
            decreases ids@.len() - i,
        {
            proof {
                assert(ids@.contains(ids@[i as int]));
            }
            if ids[i] != object.id {
                if let Some(other) = self.objects.get(ids[i]) {
                    if is_presented(other, &object.scope, &object.node.id) {
                        proof {
                            assert(self@.objects.contains_key(ids@[i as int]));
                        }
                        return true;
                    }
                }
            }
            i = i + 1;
        }
        proof {
            assert forall|id: Id| #[trigger] self@.objects.contains_key(id) && id
                != object.id implies !presents(
                self@.objects[id],
                object.scope@,
                object.node.id@,
            ) by {
                assert(ids@.contains(id));
                let j = choose|j: int| 0 <= j < ids@.len() && ids@[j] == id;
                assert(ids@[j] == id);
            }
        }
        false
    }

    /// Whether a snapshot is newer than what is shown.
    pub fn is_newer(&self, snapshot: &NamespaceSnapshot) -> (new: bool)
        ensures
            new == newer(self@, *snapshot),
    {
        match self.objects.get(snapshot.object.id) {
            None => true,
            Some(known) => {
                if snapshot.object.revision > known.revision {
                    return true;
                }
                if snapshot.object.revision < known.revision {
                    return false;
                }
                match &snapshot.working {
                    None => false,
                    Some(file) => match self.files.get(file.id) {
                        None => true,
                        Some(current) => is_later(file, current),
                    },
                }
            },
        }
    }

    /// Whether two snapshots cannot both be published.
    fn collides(&self, a: &NamespaceSnapshot, b: &NamespaceSnapshot) -> (bad: bool)
        ensures
            bad == collide(self@, *a, *b),
    {
        if a.object.id == b.object.id {
            return true;
        }
        if !self.is_newer(a) || !self.is_newer(b) {
            return false;
        }
        if is_presented(&a.object, &b.object.scope, &b.object.node.id) {
            return true;
        }
        b.object.remote_owned && match &b.object.remote {
            Some(remote) => is_owned(&a.object, &b.object.scope, &remote.id),
            None => false,
        }
    }

    /// Whether an object is among the newer snapshots.
    fn is_renewed(&self, batch: &Vec<NamespaceSnapshot>, id: Id) -> (is: bool)
        ensures
            is == renewed(self@, batch@, id),
    {
        let mut i: usize = 0;
        while i < batch.len()
            invariant
                i <= batch@.len(),
                forall|j: int|
                    0 <= j < i ==> !((#[trigger] batch@[j]).object.id == id && newer(
                        self@,
                        batch@[j],
                    )),
            decreases batch@.len() - i,
        {
            if batch[i].object.id == id && self.is_newer(&batch[i]) {
                return true;
            }
            i = i + 1;
        }
        false
    }

    /// Whether a snapshot takes a provider identity from an object that the batch
    /// leaves as it is.
    fn is_robbing(&self, batch: &Vec<NamespaceSnapshot>, snapshot: &NamespaceSnapshot) -> (bad: bool)
        ensures
            bad == robs(self@, batch@, *snapshot),
    {
        if !self.is_newer(snapshot) || !snapshot.object.remote_owned {
            return false;
        }
        let item = match &snapshot.object.remote {
            Some(remote) => &remote.id,
            None => {
                return false;
            },
        };
        let ids = self.objects.ids();
        let mut i: usize = 0;
        while i < ids.len()
            invariant
                i <= ids@.len(),
                snapshot.object.remote is Some,
                item@ == snapshot.object.remote->0.id@,
                forall|id: Id| ids@.contains(id) <==> self@.objects.contains_key(id),
                forall|j: int|
                    0 <= j < i ==> (#[trigger] ids@[j]) == snapshot.object.id || renewed(
                        self@,
                        batch@,
                        ids@[j],
                    ) || !owns(self@.objects[ids@[j]], snapshot.object.scope@, item@),
                newer(self@, *snapshot),
                snapshot.object.remote_owned,
            decreases ids@.len() - i,
        {
            proof {
                assert(ids@.contains(ids@[i as int]));
            }
            let id = ids[i];
            if id != snapshot.object.id && !self.is_renewed(batch, id) {
                if let Some(other) = self.objects.get(id) {
                    if is_owned(other, &snapshot.object.scope, item) {
                        proof {
                            assert(self@.objects.contains_key(id));
                        }
                        return true;
                    }
                }
            }
            i = i + 1;
        }
        proof {
            assert forall|id: Id| #[trigger] self@.objects.contains_key(id) && id
                != snapshot.object.id && !renewed(self@, batch@, id) implies !owns(
                self@.objects[id],
                snapshot.object.scope@,
                item@,
            ) by {
                assert(ids@.contains(id));
                let j = choose|j: int| 0 <= j < ids@.len() && ids@[j] == id;
                assert(ids@[j] == id);
            }
        }
        false
    }

    /// Whether a batch is incomplete or does not fit.
    fn is_broken(&self, batch: &Vec<NamespaceSnapshot>) -> (bad: bool)
        ensures
            bad == broken(self@, batch@),
    {
        let mut i: usize = 0;
        while i < batch.len()
            invariant
                i <= batch@.len(),
                forall|k: int| 0 <= k < i ==> !unfit(self@, #[trigger] batch@[k]),
                forall|k: int| 0 <= k < i ==> !robs(self@, batch@, #[trigger] batch@[k]),
                forall|k: int, l: int|
                    0 <= k < l < i ==> !collide(self@, #[trigger] batch@[k], #[trigger] batch@[l]),
            decreases batch@.len() - i,
        {
            if self.is_unfit(&batch[i]) || self.is_robbing(batch, &batch[i]) {
                return true;
            }
            let mut j: usize = 0;
            while j < i
                invariant
                    j <= i < batch@.len(),
                    forall|k: int|
                        0 <= k < j ==> !collide(self@, #[trigger] batch@[k], batch@[i as int]),
                decreases i - j,
            {
                if self.collides(&batch[j], &batch[i]) {
                    return true;
                }
                j = j + 1;
            }
            i = i + 1;
        }
        false
    }

    /// Shows one snapshot.
    fn apply(&mut self, snapshot: &NamespaceSnapshot)
        ensures
            final(self)@ == applied(old(self)@, *snapshot),
    {
        let stream = match self.objects.get(snapshot.object.id) {
            Some(known) => known.working_file,
            None => None,
        };
        if let Some(id) = stream {
            self.files.take(id);
        }
        self.objects.put(snapshot.object.id, snapshot.object.clone());
        if let Some(file) = &snapshot.working {
            self.files.put(file.id, file.clone());
        }
    }

    /// Publishes a committed frontier. A batch that is refused changes neither what is
    /// shown nor the frontier.
    pub fn publish_batch(&mut self, batch: &NamespacePublication) -> (result: Result<
        bool,
        WriteError,
    >)
        ensures
            match published(old(self)@, *batch) {
                Ok((after, changed)) => result == Ok::<bool, WriteError>(changed) && final(self)@
                    == after,
                Err(error) => result == Err::<bool, WriteError>(error) && final(self)@ == old(self)@,
            },
    {
        if batch.after > self.frontier || batch.through < batch.after {
            return Err(WriteError::Stale);
        }
        if batch.through <= self.frontier {
            return Ok(false);
        }
        if self.is_broken(&batch.objects) {
            return Err(WriteError::Failure);
        }
        let ghost start = self@;
        let ghost all = batch.objects@;
        let mut fresh: Vec<bool> = Vec::new();
        let mut i: usize = 0;
        while i < batch.objects.len()
            invariant
                i <= batch.objects@.len(),
                self@ == start,
                fresh@.len() == i,
                forall|j: int| 0 <= j < i ==> #[trigger] fresh@[j] == newer(start, batch.objects@[j]),
            decreases batch.objects@.len() - i,
        {
            fresh.push(self.is_newer(&batch.objects[i]));
            i = i + 1;
        }
        let mut changed = false;
        let mut k: usize = 0;
        while k < batch.objects.len()
            invariant
                k <= batch.objects@.len(),
                all == batch.objects@,
                fresh@.len() == all.len(),
                forall|j: int| 0 <= j < all.len() ==> #[trigger] fresh@[j] == newer(start, all[j]),
                self@ == applied_all(start, start, all.take(k as int)),
                changed == any_newer(start, all.take(k as int)),
            decreases batch.objects@.len() - k,
        {
            proof {
                assert(all.take(k + 1).drop_last() =~= all.take(k as int));
                assert(all.take(k + 1).last() == all[k as int]);
                if any_newer(start, all.take(k as int)) {
                    let j = choose|j: int|
                        0 <= j < k && newer(start, #[trigger] all.take(k as int)[j]);
                    assert(all.take(k + 1)[j] == all.take(k as int)[j]);
                }
                if any_newer(start, all.take(k + 1)) {
                    let j = choose|j: int|
                        0 <= j < k + 1 && newer(start, #[trigger] all.take(k + 1)[j]);
                    if j < k {
                        assert(all.take(k as int)[j] == all.take(k + 1)[j]);
                    }
                }
                if newer(start, all[k as int]) {
                    assert(newer(start, all.take(k + 1)[k as int]));
                }
            }
            if fresh[k] {
                self.apply(&batch.objects[k]);
                changed = true;
            }
            k = k + 1;
        }
        proof {
            assert(all.take(k as int) =~= all);
        }
        self.frontier = batch.through;
        Ok(changed)
    }
}

/// Every provider identity has at most one owner among what is shown.
pub open spec fn owners_unique(shown: ProjectionView) -> bool {
    &&& forall|id: Id| #[trigger]
        shown.objects.contains_key(id) ==> shown.objects[id].id == id
    &&& forall|a: Id, b: Id, scope: ScopeView, item: Seq<char>|
        #![trigger owns(shown.objects[a], scope, item), owns(shown.objects[b], scope, item)]
        shown.objects.contains_key(a) && shown.objects.contains_key(b) && owns(
            shown.objects[a],
            scope,
            item,
        ) && owns(shown.objects[b], scope, item) ==> a == b
}

proof fn lemma_applied_objects(
    before: ProjectionView,
    shown: ProjectionView,
    batch: Seq<NamespaceSnapshot>,
)
    ensures
        ({
            let after = applied_all(before, shown, batch);
            &&& forall|id: Id| #[trigger]
                after.objects.contains_key(id) ==> (renewed(before, batch, id)
                    && exists|i: int|
                    0 <= i < batch.len() && newer(before, #[trigger] batch[i])
                        && batch[i].object.id == id && after.objects[id] == batch[i].object) || (
                !renewed(before, batch, id) && shown.objects.contains_key(id) && after.objects[id]
                    == shown.objects[id])
        }),
    decreases batch.len(),
{
    if batch.len() > 0 {
        let front = batch.drop_last();
        lemma_applied_objects(before, shown, front);
        let middle = applied_all(before, shown, front);
        let after = applied_all(before, shown, batch);
        assert forall|id: Id| #[trigger] after.objects.contains_key(id) implies (renewed(
            before,
            batch,
            id,
        ) && exists|i: int|
            0 <= i < batch.len() && newer(before, #[trigger] batch[i]) && batch[i].object.id == id
                && after.objects[id] == batch[i].object) || (!renewed(before, batch, id)
            && shown.objects.contains_key(id) && after.objects[id] == shown.objects[id]) by {
            let last = batch.last();
            if newer(before, last) && last.object.id == id {
                assert(batch[batch.len() - 1] == last);
            } else {
                assert(middle.objects.contains_key(id));
                if renewed(before, front, id) {
                    let i = choose|i: int|
                        0 <= i < front.len() && newer(before, #[trigger] front[i])
                            && front[i].object.id == id && middle.objects[id] == front[i].object;
                    assert(batch[i] == front[i]);
                } else {
                    if renewed(before, batch, id) {
                        let i = choose|i: int|
                            0 <= i < batch.len() && (#[trigger] batch[i]).object.id == id && newer(
                                before,
                                batch[i],
                            );
                        if i < front.len() {
                            assert(front[i] == batch[i]);
                        }
                    }
                }
            }
        }
    }
}

/// Publishing keeps every provider identity with at most one owner, in whatever order
/// the sides of a transfer come.
pub proof fn publication_keeps_owners_unique(shown: ProjectionView, batch: NamespacePublication)
    requires
        owners_unique(shown),
    ensures
        match published(shown, batch) {
            Ok((after, _)) => owners_unique(after),
            Err(_) => true,
        },
{
    if let Ok((after, _)) = published(shown, batch) {
        if batch.through > shown.frontier {
            let all = batch.objects@;
            lemma_applied_objects(shown, shown, all);
            let done = applied_all(shown, shown, all);
            assert(after.objects == done.objects);
            assert forall|id: Id| #[trigger] after.objects.contains_key(id) implies after.objects[id].id
                == id by {
                assert(done.objects.contains_key(id));
            }
            assert forall|a: Id, b: Id, scope: ScopeView, item: Seq<char>|
                #![trigger owns(after.objects[a], scope, item), owns(after.objects[b], scope, item)]
                after.objects.contains_key(a) && after.objects.contains_key(b) && owns(
                    after.objects[a],
                    scope,
                    item,
                ) && owns(after.objects[b], scope, item) implies a == b by {
                assert(done.objects.contains_key(a) && done.objects.contains_key(b));
                lemma_one_owner(shown, all, done, a, b, scope, item);
            }
        }
    }
}

proof fn lemma_one_owner(
    shown: ProjectionView,
    all: Seq<NamespaceSnapshot>,
    done: ProjectionView,
    a: Id,
    b: Id,
    scope: ScopeView,
    item: Seq<char>,
)
    requires
        owners_unique(shown),
        !broken(shown, all),
        done == applied_all(shown, shown, all),
        done.objects.contains_key(a),
        done.objects.contains_key(b),
        owns(done.objects[a], scope, item),
        owns(done.objects[b], scope, item),
    ensures
        a == b,
{
    lemma_applied_objects(shown, shown, all);
    let x = done.objects[a];
    let y = done.objects[b];
    if renewed(shown, all, a) && renewed(shown, all, b) {
        let i = choose|i: int|
            0 <= i < all.len() && newer(shown, #[trigger] all[i]) && all[i].object.id == a && x
                == all[i].object;
        let j = choose|j: int|
            0 <= j < all.len() && newer(shown, #[trigger] all[j]) && all[j].object.id == b && y
                == all[j].object;
        if i < j {
            assert(!collide(shown, all[i], all[j]));
        } else if j < i {
            assert(!collide(shown, all[j], all[i]));
        }
    } else if renewed(shown, all, a) {
        let i = choose|i: int|
            0 <= i < all.len() && newer(shown, #[trigger] all[i]) && all[i].object.id == a && x
                == all[i].object;
        assert(!robs(shown, all, all[i]));
        assert(shown.objects.contains_key(b));
    } else if renewed(shown, all, b) {
        let j = choose|j: int|
            0 <= j < all.len() && newer(shown, #[trigger] all[j]) && all[j].object.id == b && y
                == all[j].object;
        assert(!robs(shown, all, all[j]));
        assert(shown.objects.contains_key(a));
    } else {
        assert(owns(shown.objects[a], scope, item) && owns(shown.objects[b], scope, item));
    }
}

/// Publishing a frontier again changes nothing, so a delayed callback may always repeat
/// it.
pub proof fn publishing_again_changes_nothing(shown: ProjectionView, batch: NamespacePublication)
    ensures
        match published(shown, batch) {
            Ok((after, _)) => published(after, batch) == Ok::<(ProjectionView, bool), WriteError>(
                (after, false),
            ),
            Err(_) => true,
        },
{
}

proof fn lemma_shown_stays(
    before: ProjectionView,
    shown: ProjectionView,
    batch: Seq<NamespaceSnapshot>,
    id: Id,
)
    requires
        shown.objects.contains_key(id),
    ensures
        applied_all(before, shown, batch).objects.contains_key(id),
    decreases batch.len(),
{
    if batch.len() > 0 {
        lemma_shown_stays(before, shown, batch.drop_last(), id);
    }
}

/// What is shown never goes back: no object disappears, and none returns to an earlier
/// revision.
pub proof fn publication_never_goes_back(
    shown: ProjectionView,
    batch: NamespacePublication,
    id: Id,
)
    requires
        shown.objects.contains_key(id),
    ensures
        match published(shown, batch) {
            Ok((after, _)) => {
                &&& after.frontier >= shown.frontier
                &&& after.objects.contains_key(id)
                &&& after.objects[id].revision >= shown.objects[id].revision
            },
            Err(_) => true,
        },
{
    if let Ok((after, _)) = published(shown, batch) {
        if batch.through > shown.frontier {
            let all = batch.objects@;
            let done = applied_all(shown, shown, all);
            assert(after.objects == done.objects);
            lemma_applied_objects(shown, shown, all);
            lemma_shown_stays(shown, shown, all, id);
        }
    }
}

/// The stream that a snapshot brings.
pub open spec fn stream_of(snapshot: NamespaceSnapshot) -> Option<Id> {
    match snapshot.working {
        Some(file) => Some(file.id),
        None => None,
    }
}

/// The stream that is shown of the snapshot's object.
pub open spec fn stream_shown(shown: ProjectionView, snapshot: NamespaceSnapshot) -> Option<Id> {
    if shown.objects.contains_key(snapshot.object.id) {
        shown.objects[snapshot.object.id].working_file
    } else {
        None
    }
}

/// No stream that a newer snapshot brings belongs to another one, neither in the batch
/// nor in what is shown.
pub open spec fn streams_apart(shown: ProjectionView, batch: Seq<NamespaceSnapshot>) -> bool {
    forall|i: int, j: int|
        #![trigger batch[i], batch[j]]
        0 <= i < batch.len() && 0 <= j < batch.len() && i != j && newer(shown, batch[i]) && newer(
            shown,
            batch[j],
        ) && stream_of(batch[i]) is Some ==> stream_of(batch[j]) != stream_of(batch[i])
            && stream_shown(shown, batch[j]) != stream_of(batch[i])
}

/// No object occurs twice.
pub open spec fn objects_apart(batch: Seq<NamespaceSnapshot>) -> bool {
    forall|i: int, j: int|
        0 <= i < j < batch.len() ==> (#[trigger] batch[i]).object.id != (
        #[trigger] batch[j]).object.id
}

/// Some newer snapshot brings the stream.
pub open spec fn brings(shown: ProjectionView, batch: Seq<NamespaceSnapshot>, id: Id) -> bool {
    exists|i: int|
        0 <= i < batch.len() && newer(shown, #[trigger] batch[i]) && stream_of(batch[i]) == Some(id)
}

/// Some newer snapshot replaces the stream.
pub open spec fn drops(shown: ProjectionView, batch: Seq<NamespaceSnapshot>, id: Id) -> bool {
    exists|i: int|
        0 <= i < batch.len() && newer(shown, #[trigger] batch[i]) && stream_shown(shown, batch[i])
            == Some(id)
}

proof fn lemma_front(shown: ProjectionView, batch: Seq<NamespaceSnapshot>)
    requires
        batch.len() > 0,
    ensures
        forall|id: Id| #[trigger]
            renewed(shown, batch, id) <==> renewed(shown, batch.drop_last(), id) || (newer(
                shown,
                batch.last(),
            ) && batch.last().object.id == id),
        forall|id: Id| #[trigger]
            brings(shown, batch, id) <==> brings(shown, batch.drop_last(), id) || (newer(
                shown,
                batch.last(),
            ) && stream_of(batch.last()) == Some(id)),
        forall|id: Id| #[trigger]
            drops(shown, batch, id) <==> drops(shown, batch.drop_last(), id) || (newer(
                shown,
                batch.last(),
            ) && stream_shown(shown, batch.last()) == Some(id)),
{
    let front = batch.drop_last();
    let end = batch.len() - 1;
    assert(batch[end] == batch.last());
    assert forall|id: Id| #[trigger] renewed(shown, batch, id) <==> renewed(shown, front, id) || (
    newer(shown, batch.last()) && batch.last().object.id == id) by {
        if renewed(shown, front, id) {
            let i = choose|i: int|
                0 <= i < front.len() && (#[trigger] front[i]).object.id == id && newer(
                    shown,
                    front[i],
                );
            assert(batch[i] == front[i]);
        }
        if renewed(shown, batch, id) {
            let i = choose|i: int|
                0 <= i < batch.len() && (#[trigger] batch[i]).object.id == id && newer(
                    shown,
                    batch[i],
                );
            if i < end {
                assert(front[i] == batch[i]);
            }
        }
    }
    assert forall|id: Id| #[trigger] brings(shown, batch, id) <==> brings(shown, front, id) || (
    newer(shown, batch.last()) && stream_of(batch.last()) == Some(id)) by {
        if brings(shown, front, id) {
            let i = choose|i: int|
                0 <= i < front.len() && newer(shown, #[trigger] front[i]) && stream_of(front[i])
                    == Some(id);
            assert(batch[i] == front[i]);
        }
        if brings(shown, batch, id) {
            let i = choose|i: int|
                0 <= i < batch.len() && newer(shown, #[trigger] batch[i]) && stream_of(batch[i])
                    == Some(id);
            if i < end {
                assert(front[i] == batch[i]);
            }
        }
    }
    assert forall|id: Id| #[trigger] drops(shown, batch, id) <==> drops(shown, front, id) || (
    newer(shown, batch.last()) && stream_shown(shown, batch.last()) == Some(id)) by {
        if drops(shown, front, id) {
            let i = choose|i: int|
                0 <= i < front.len() && newer(shown, #[trigger] front[i]) && stream_shown(
                    shown,
                    front[i],
                ) == Some(id);
            assert(batch[i] == front[i]);
        }
        if drops(shown, batch, id) {
            let i = choose|i: int|
                0 <= i < batch.len() && newer(shown, #[trigger] batch[i]) && stream_shown(
                    shown,
                    batch[i],
                ) == Some(id);
            if i < end {
                assert(front[i] == batch[i]);
            }
        }
    }
}

/// Which objects and streams are shown behind a batch.
proof fn lemma_applied_exactly(shown: ProjectionView, batch: Seq<NamespaceSnapshot>)
    requires
        objects_apart(batch),
    ensures
        ({
            let after = applied_all(shown, shown, batch);
            &&& after.frontier == shown.frontier
            &&& forall|id: Id| #[trigger]
                after.objects.contains_key(id) <==> shown.objects.contains_key(id) || renewed(
                    shown,
                    batch,
                    id,
                )
            &&& forall|id: Id|
                !renewed(shown, batch, id) && shown.objects.contains_key(id)
                    ==> #[trigger] after.objects[id] == shown.objects[id]
            &&& forall|i: int|
                0 <= i < batch.len() && newer(shown, #[trigger] batch[i])
                    ==> after.objects[batch[i].object.id] == batch[i].object
            &&& streams_apart(shown, batch) ==> {
                &&& forall|id: Id| #[trigger]
                    after.files.contains_key(id) <==> brings(shown, batch, id) || (
                    shown.files.contains_key(id) && !drops(shown, batch, id))
                &&& forall|id: Id|
                    !brings(shown, batch, id) && !drops(shown, batch, id)
                        && shown.files.contains_key(id) ==> #[trigger] after.files[id]
                        == shown.files[id]
                &&& forall|i: int|
                    0 <= i < batch.len() && newer(shown, #[trigger] batch[i]) && stream_of(
                        batch[i],
                    ) is Some ==> after.files[stream_of(batch[i])->0] == batch[i].working->0
            }
        }),
    decreases batch.len(),
{
    if batch.len() > 0 {
        let front = batch.drop_last();
        let last = batch.last();
        let end = batch.len() - 1;
        assert(batch[end] == last);
        assert forall|i: int, j: int| 0 <= i < j < front.len() implies (
        #[trigger] front[i]).object.id != (#[trigger] front[j]).object.id by {
            assert(batch[i].object.id != batch[j].object.id);
        }
        if streams_apart(shown, batch) {
            assert forall|i: int, j: int|
                #![trigger front[i], front[j]]
                0 <= i < front.len() && 0 <= j < front.len() && i != j && newer(shown, front[i])
                    && newer(shown, front[j]) && stream_of(front[i]) is Some implies stream_of(
                front[j],
            ) != stream_of(front[i]) && stream_shown(shown, front[j]) != stream_of(front[i]) by {
                assert(batch[i] == front[i] && batch[j] == front[j]);
            }
        }
        lemma_applied_exactly(shown, front);
        lemma_front(shown, batch);
        let middle = applied_all(shown, shown, front);
        let after = applied_all(shown, shown, batch);
        if newer(shown, last) {
            let id = last.object.id;
            if renewed(shown, front, id) {
                let i = choose|i: int|
                    0 <= i < front.len() && (#[trigger] front[i]).object.id == id && newer(
                        shown,
                        front[i],
                    );
                assert(batch[i].object.id != batch[end].object.id);
                assert(false);
            }
            assert forall|i: int|
                0 <= i < batch.len() && newer(
                    shown,
                    #[trigger] batch[i],
                ) implies after.objects[batch[i].object.id] == batch[i].object by {
                if i < end {
                    assert(front[i] == batch[i]);
                    assert(batch[i].object.id != batch[end].object.id);
                }
            }
            if streams_apart(shown, batch) {
                assert forall|i: int|
                    0 <= i < batch.len() && newer(shown, #[trigger] batch[i]) && stream_of(
                        batch[i],
                    ) is Some implies after.files[stream_of(batch[i])->0]
                    == batch[i].working->0 by {
                    if i < end {
                        assert(front[i] == batch[i]);
                        assert(stream_of(batch[end]) != stream_of(batch[i]));
                    }
                }
                assert forall|f: Id| #[trigger] after.files.contains_key(f) <==> brings(
                    shown,
                    batch,
                    f,
                ) || (shown.files.contains_key(f) && !drops(shown, batch, f)) by {
                    if brings(shown, front, f) {
                        let i = choose|i: int|
                            0 <= i < front.len() && newer(shown, #[trigger] front[i]) && stream_of(
                                front[i],
                            ) == Some(f);
                        assert(batch[i] == front[i]);
                        assert(stream_shown(shown, batch[end]) != stream_of(batch[i]));
                    }
                }
            }
        } else {
            assert forall|i: int|
                0 <= i < batch.len() && newer(
                    shown,
                    #[trigger] batch[i],
                ) implies after.objects[batch[i].object.id] == batch[i].object by {
                assert(front[i] == batch[i]);
            }
            if streams_apart(shown, batch) {
                assert forall|i: int|
                    0 <= i < batch.len() && newer(shown, #[trigger] batch[i]) && stream_of(
                        batch[i],
                    ) is Some implies after.files[stream_of(batch[i])->0]
                    == batch[i].working->0 by {
                    assert(front[i] == batch[i]);
                }
            }
        }
    }
}

proof fn lemma_same_members(a: Seq<NamespaceSnapshot>, b: Seq<NamespaceSnapshot>)
    requires
        a.to_multiset() == b.to_multiset(),
    ensures
        forall|i: int| 0 <= i < a.len() ==> b.contains(#[trigger] a[i]),
        forall|i: int| 0 <= i < b.len() ==> a.contains(#[trigger] b[i]),
        a.no_duplicates() == b.no_duplicates(),
{
    a.to_multiset_ensures();
    b.to_multiset_ensures();
    assert forall|i: int| 0 <= i < a.len() implies b.contains(#[trigger] a[i]) by {
        assert(a.contains(a[i]));
        assert(a.to_multiset().count(a[i]) > 0);
    }
    assert forall|i: int| 0 <= i < b.len() implies a.contains(#[trigger] b[i]) by {
        assert(b.contains(b[i]));
        assert(b.to_multiset().count(b[i]) > 0);
    }
    if a.no_duplicates() {
        a.lemma_multiset_has_no_duplicates();
        b.lemma_multiset_has_no_duplicates_conv();
    }
    if b.no_duplicates() {
        b.lemma_multiset_has_no_duplicates();
        a.lemma_multiset_has_no_duplicates_conv();
    }
}

proof fn lemma_same_effects(
    shown: ProjectionView,
    a: Seq<NamespaceSnapshot>,
    b: Seq<NamespaceSnapshot>,
)
    requires
        forall|i: int| 0 <= i < a.len() ==> b.contains(#[trigger] a[i]),
    ensures
        forall|id: Id| #[trigger] renewed(shown, a, id) ==> renewed(shown, b, id),
        forall|id: Id| #[trigger] brings(shown, a, id) ==> brings(shown, b, id),
        forall|id: Id| #[trigger] drops(shown, a, id) ==> drops(shown, b, id),
        any_newer(shown, a) ==> any_newer(shown, b),
{
    assert forall|id: Id| #[trigger] renewed(shown, a, id) implies renewed(shown, b, id) by {
        let i = choose|i: int|
            0 <= i < a.len() && (#[trigger] a[i]).object.id == id && newer(shown, a[i]);
        let j = choose|j: int| 0 <= j < b.len() && b[j] == a[i];
        assert(b[j].object.id == id);
    }
    assert forall|id: Id| #[trigger] brings(shown, a, id) implies brings(shown, b, id) by {
        let i = choose|i: int|
            0 <= i < a.len() && newer(shown, #[trigger] a[i]) && stream_of(a[i]) == Some(id);
        let j = choose|j: int| 0 <= j < b.len() && b[j] == a[i];
        assert(newer(shown, b[j]));
    }
    assert forall|id: Id| #[trigger] drops(shown, a, id) implies drops(shown, b, id) by {
        let i = choose|i: int|
            0 <= i < a.len() && newer(shown, #[trigger] a[i]) && stream_shown(shown, a[i])
                == Some(id);
        let j = choose|j: int| 0 <= j < b.len() && b[j] == a[i];
        assert(newer(shown, b[j]));
    }
    if any_newer(shown, a) {
        let i = choose|i: int| 0 <= i < a.len() && newer(shown, #[trigger] a[i]);
        let j = choose|j: int| 0 <= j < b.len() && b[j] == a[i];
        assert(newer(shown, b[j]));
    }
}

proof fn lemma_broken_either_way(
    shown: ProjectionView,
    a: Seq<NamespaceSnapshot>,
    b: Seq<NamespaceSnapshot>,
)
    requires
        a.to_multiset() == b.to_multiset(),
        broken(shown, a),
    ensures
        broken(shown, b),
{
    lemma_same_members(a, b);
    lemma_same_effects(shown, a, b);
    lemma_same_effects(shown, b, a);
    if exists|i: int| 0 <= i < a.len() && unfit(shown, #[trigger] a[i]) {
        let i = choose|i: int| 0 <= i < a.len() && unfit(shown, #[trigger] a[i]);
        let j = choose|j: int| 0 <= j < b.len() && b[j] == a[i];
        assert(unfit(shown, b[j]));
    } else if exists|i: int, j: int|
        0 <= i < j < a.len() && collide(shown, #[trigger] a[i], #[trigger] a[j]) {
        let (i, j) = choose|i: int, j: int|
            0 <= i < j < a.len() && collide(shown, #[trigger] a[i], #[trigger] a[j]);
        if a[i] == a[j] {
            assert(!a.no_duplicates());
            let (k, l) = choose|k: int, l: int|
                0 <= k < b.len() && 0 <= l < b.len() && k != l && b[k] == b[l];
            assert(collide(shown, b[k], b[l]));
            assert(collide(shown, b[l], b[k]));
        } else {
            let k = choose|k: int| 0 <= k < b.len() && b[k] == a[i];
            let l = choose|l: int| 0 <= l < b.len() && b[l] == a[j];
            assert(collide(shown, b[k], b[l]));
            assert(collide(shown, b[l], b[k]));
        }
    } else {
        let i = choose|i: int| 0 <= i < a.len() && robs(shown, a, #[trigger] a[i]);
        let j = choose|j: int| 0 <= j < b.len() && b[j] == a[i];
        assert(robs(shown, b, b[j]));
    }
}

/// What a publication shows does not depend on the order of its snapshots: the same
/// batch in another order is refused alike, or leads to the same objects, the same
/// frontier and the same answer. The streams are the same too where none of them moves
/// from one object of the batch to another.
pub proof fn publication_does_not_depend_on_the_order(
    shown: ProjectionView,
    a: NamespacePublication,
    b: NamespacePublication,
)
    requires
        a.after == b.after,
        a.through == b.through,
        a.objects@.to_multiset() == b.objects@.to_multiset(),
    ensures
        match (published(shown, a), published(shown, b)) {
            (Ok((one, changed)), Ok((other, same))) => one.objects == other.objects && one.frontier
                == other.frontier && changed == same && (streams_apart(shown, a.objects@)
                ==> one == other),
            (Err(error), Err(same)) => error == same,
            _ => false,
        },
{
    let x = a.objects@;
    let y = b.objects@;
    lemma_same_members(x, y);
    lemma_same_effects(shown, x, y);
    lemma_same_effects(shown, y, x);
    if broken(shown, x) {
        lemma_broken_either_way(shown, x, y);
    } else {
        if broken(shown, y) {
            lemma_broken_either_way(shown, y, x);
        }
        assert(objects_apart(x)) by {
            assert forall|i: int, j: int| 0 <= i < j < x.len() implies (
            #[trigger] x[i]).object.id != (#[trigger] x[j]).object.id by {
                assert(!collide(shown, x[i], x[j]));
            }
        }
        assert(objects_apart(y)) by {
            assert forall|i: int, j: int| 0 <= i < j < y.len() implies (
            #[trigger] y[i]).object.id != (#[trigger] y[j]).object.id by {
                assert(!collide(shown, y[i], y[j]));
            }
        }
        lemma_applied_exactly(shown, x);
        lemma_applied_exactly(shown, y);
        let one = applied_all(shown, shown, x);
        let other = applied_all(shown, shown, y);
        assert(one.objects =~= other.objects) by {
            assert forall|id: Id| #[trigger] one.objects.contains_key(id) implies one.objects[id]
                == other.objects[id] by {
                if renewed(shown, x, id) {
                    let i = choose|i: int|
                        0 <= i < x.len() && (#[trigger] x[i]).object.id == id && newer(
                            shown,
                            x[i],
                        );
                    let j = choose|j: int| 0 <= j < y.len() && y[j] == x[i];
                    assert(newer(shown, y[j]));
                }
            }
        }
        if streams_apart(shown, x) {
            assert(streams_apart(shown, y)) by {
                assert forall|k: int, l: int|
                    #![trigger y[k], y[l]]
                    0 <= k < y.len() && 0 <= l < y.len() && k != l && newer(shown, y[k]) && newer(
                        shown,
                        y[l],
                    ) && stream_of(y[k]) is Some implies stream_of(y[l]) != stream_of(y[k])
                    && stream_shown(shown, y[l]) != stream_of(y[k]) by {
                    let i = choose|i: int| 0 <= i < x.len() && x[i] == y[k];
                    let j = choose|j: int| 0 <= j < x.len() && x[j] == y[l];
                    if i == j {
                        assert(y[k].object.id != y[l].object.id);
                    }
                }
            }
            assert(one.files =~= other.files) by {
                assert forall|id: Id| #[trigger] one.files.contains_key(id) implies one.files[id]
                    == other.files[id] by {
                    if brings(shown, x, id) {
                        let i = choose|i: int|
                            0 <= i < x.len() && newer(shown, #[trigger] x[i]) && stream_of(x[i])
                                == Some(id);
                        let j = choose|j: int| 0 <= j < y.len() && y[j] == x[i];
                        assert(newer(shown, y[j]));
                    }
                }
            }
        }
    }
}

/// A refusal of the journal keeps its meaning for the caller, and what has none of its own
/// is a failure.
pub proof fn refusals_keep_their_meaning(error: JournalError)
    ensures
        write_error(JournalError::Quota) == WriteError::NoSpace,
        write_error(JournalError::Missing) == WriteError::NotFound,
        write_error(JournalError::Account) == WriteError::Access,
        write_error(JournalError::Intent) == WriteError::Invalid,
        write_error(JournalError::Stale) == WriteError::Stale,
        !(error is Quota || error is Missing || error is Account || error is Intent
            || error is Stale) ==> write_error(error) == WriteError::Failure,
{
}

/// Being later orders the states of a stream: none is later than itself, of two states one
/// at most is later, and a stream that was written to since is later than before, as is one
/// that was sealed since.
pub proof fn states_of_a_stream_are_ordered(a: WorkingFile, b: WorkingFile, c: WorkingFile)
    ensures
        !later(a, a),
        later(a, b) ==> !later(b, a),
        later(a, b) && later(b, c) ==> later(a, c),
        a.generation > b.generation ==> later(a, b),
        a.generation < b.generation ==> !later(a, b),
        a.generation == b.generation ==> (later(a, b) <==> !a.dirty && b.dirty),
{
}

/// A snapshot is newer exactly where its object is not shown, where it was revised since, or
/// where only its stream went on.
pub proof fn revisions_decide_what_is_newer(shown: ProjectionView, snapshot: NamespaceSnapshot)
    ensures
        ({
            let object = snapshot.object;
            let known = shown.objects[object.id];
            &&& !shown.objects.contains_key(object.id) ==> newer(shown, snapshot)
            &&& shown.objects.contains_key(object.id) ==> {
                &&& object.revision > known.revision ==> newer(shown, snapshot)
                &&& object.revision < known.revision ==> !newer(shown, snapshot)
                &&& object.revision == known.revision ==> (newer(shown, snapshot)
                    <==> snapshot.working is Some && (!shown.files.contains_key(
                    snapshot.working->0.id,
                ) || snapshot.working->0.generation > shown.files[snapshot.working->0.id].generation
                    || (snapshot.working->0.generation
                    == shown.files[snapshot.working->0.id].generation
                    && !snapshot.working->0.dirty
                    && shown.files[snapshot.working->0.id].dirty)))
            }
        }),
{
}

/// A batch is taken exactly where it follows what is shown and nothing in it is broken. One
/// that leaves a gap is refused as stale, and one that was published before changes nothing.
pub proof fn frontiers_are_followed_without_gaps(shown: ProjectionView, batch: NamespacePublication)
    ensures
        batch.after > shown.frontier || batch.through < batch.after ==> published(shown, batch)
            == Err::<(ProjectionView, bool), WriteError>(WriteError::Stale),
        batch.after <= batch.through <= shown.frontier ==> published(shown, batch) == Ok::<
            (ProjectionView, bool),
            WriteError,
        >((shown, false)),
        batch.after <= shown.frontier < batch.through ==> {
            &&& broken(shown, batch.objects@) ==> published(shown, batch) == Err::<
                (ProjectionView, bool),
                WriteError,
            >(WriteError::Failure)
            &&& !broken(shown, batch.objects@) ==> published(shown, batch) is Ok && published(
                shown,
                batch,
            )->Ok_0.0.frontier == batch.through
        },
{
}

/// What breaks a batch: a snapshot without its stream or with another object's, one that
/// moves a local identity, two of one object, two that claim one identity, and one that takes
/// a provider identity from an object that the batch leaves as it is.
pub proof fn broken_batches_are_refused(
    shown: ProjectionView,
    batch: Seq<NamespaceSnapshot>,
    i: int,
    j: int,
    id: Id,
)
    requires
        0 <= i < batch.len(),
    ensures
        ({
            let object = batch[i].object;
            let working = batch[i].working;
            &&& object.working_file is Some && working is None ==> broken(shown, batch)
            &&& working is Some && (object.working_file != Some(working->0.id)
                || working->0.scope@ != object.scope@ || working->0.node.id@ != object.node.id@)
                ==> broken(shown, batch)
            &&& shown.objects.contains_key(object.id) && (shown.objects[object.id].scope@
                != object.scope@ || shown.objects[object.id].node.id@ != object.node.id@)
                ==> broken(shown, batch)
            &&& shown.objects.contains_key(id) && id != object.id && shown.objects[id].scope@
                == object.scope@ && shown.objects[id].node.id@ == object.node.id@ ==> broken(
                shown,
                batch,
            )
        }),
        i < j < batch.len() && batch[i].object.id == batch[j].object.id ==> broken(shown, batch),
        i < j < batch.len() && newer(shown, batch[i]) && newer(shown, batch[j])
            && batch[i].object.scope@ == batch[j].object.scope@ && batch[i].object.node.id@
            == batch[j].object.node.id@ ==> broken(shown, batch),
        i < j < batch.len() && newer(shown, batch[i]) && newer(shown, batch[j])
            && batch[i].object.remote_owned && batch[j].object.remote_owned
            && batch[i].object.remote is Some && batch[j].object.remote is Some
            && batch[i].object.scope@ == batch[j].object.scope@ && batch[i].object.remote->0.id@
            == batch[j].object.remote->0.id@ ==> broken(shown, batch),
        newer(shown, batch[i]) && batch[i].object.remote_owned && batch[i].object.remote is Some
            && shown.objects.contains_key(id) && id != batch[i].object.id && (forall|k: int|
            0 <= k < batch.len() ==> (#[trigger] batch[k]).object.id != id)
            && shown.objects[id].remote_owned && shown.objects[id].remote is Some
            && shown.objects[id].scope@ == batch[i].object.scope@
            && shown.objects[id].remote->0.id@ == batch[i].object.remote->0.id@ ==> broken(
            shown,
            batch,
        ),
{
    if i < j < batch.len() && collide(shown, batch[i], batch[j]) {
        assert(broken(shown, batch));
    }
    if unfit(shown, batch[i]) {
        assert(broken(shown, batch));
    }
    if robs(shown, batch, batch[i]) {
        assert(broken(shown, batch));
    }
}

/// A newer snapshot is shown as it is, with its stream and without the one that its object
/// had before; every other object stays.
pub proof fn snapshots_are_shown_as_they_are(
    shown: ProjectionView,
    snapshot: NamespaceSnapshot,
    other: Id,
)
    ensures
        ({
            let after = applied(shown, snapshot);
            let id = snapshot.object.id;
            let had = if shown.objects.contains_key(id) {
                shown.objects[id].working_file
            } else {
                None
            };
            &&& after.objects.contains_key(id) && after.objects[id] == snapshot.object
            &&& other != id ==> after.objects.contains_key(other) == shown.objects.contains_key(
                other,
            ) && (after.objects.contains_key(other) ==> after.objects[other]
                == shown.objects[other])
            &&& snapshot.working matches Some(file) ==> after.files.contains_key(file.id)
                && after.files[file.id] == file
            &&& had is Some && (snapshot.working is None || snapshot.working->0.id != had->0)
                ==> !after.files.contains_key(had->0)
            &&& had != Some(other) && (snapshot.working is None || snapshot.working->0.id != other)
                ==> after.files.contains_key(other) == shown.files.contains_key(other) && (
            after.files.contains_key(other) ==> after.files[other] == shown.files[other])
            &&& after.frontier == shown.frontier
        }),
{
}

/// After a batch every object of it is shown as the batch has it where that is newer, and as
/// it was before where it is not; objects that it does not name stay. The answer says whether
/// something of it was newer.
pub proof fn batches_are_shown_whole(shown: ProjectionView, batch: NamespacePublication, i: int, id: Id)
    requires
        batch.after <= shown.frontier < batch.through,
        !broken(shown, batch.objects@),
        0 <= i < batch.objects@.len(),
    ensures
        ({
            let objects = batch.objects@;
            let after = published(shown, batch)->Ok_0.0;
            &&& newer(shown, objects[i]) ==> after.objects.contains_key(objects[i].object.id)
                && after.objects[objects[i].object.id] == objects[i].object
            &&& !newer(shown, objects[i]) ==> after.objects.contains_key(objects[i].object.id)
                && after.objects[objects[i].object.id] == shown.objects[objects[i].object.id]
            &&& (forall|k: int|
                0 <= k < objects.len() ==> (#[trigger] objects[k]).object.id != id)
                ==> after.objects.contains_key(id) == shown.objects.contains_key(id) && (
            after.objects.contains_key(id) ==> after.objects[id] == shown.objects[id])
            &&& newer(shown, objects[i]) ==> published(shown, batch)->Ok_0.1
            &&& published(shown, batch)->Ok_0.1 ==> exists|k: int|
                0 <= k < objects.len() && newer(shown, #[trigger] objects[k])
        }),
{
    let objects = batch.objects@;
    assert forall|a: int, b: int|
        0 <= a < b < objects.len() implies (#[trigger] objects[a]).object.id != (
    #[trigger] objects[b]).object.id by {
        assert(!collide(shown, objects[a], objects[b]));
    }
    lemma_applied_each(shown, objects, i);
    lemma_applied_others(shown, objects, id);
}

/// One snapshot of a batch with one of each object, after all of them were applied.
proof fn lemma_applied_each(shown: ProjectionView, batch: Seq<NamespaceSnapshot>, i: int)
    requires
        0 <= i < batch.len(),
        forall|a: int, b: int|
            0 <= a < b < batch.len() ==> (#[trigger] batch[a]).object.id != (
            #[trigger] batch[b]).object.id,
    ensures
        ({
            let after = applied_all(shown, shown, batch);
            let id = batch[i].object.id;
            if newer(shown, batch[i]) {
                after.objects.contains_key(id) && after.objects[id] == batch[i].object
            } else {
                after.objects.contains_key(id) && after.objects[id] == shown.objects[id]
            }
        }),
    decreases batch.len(),
{
    let rest = batch.drop_last();
    assert forall|a: int, b: int|
        0 <= a < b < rest.len() implies (#[trigger] rest[a]).object.id != (
    #[trigger] rest[b]).object.id by {
        assert(batch[a].object.id != batch[b].object.id);
    }
    if i < rest.len() {
        assert(rest[i] == batch[i]);
        assert(batch[i].object.id != batch[batch.len() - 1].object.id);
        lemma_applied_each(shown, rest, i);
    } else {
        assert forall|a: int| 0 <= a < rest.len() implies (#[trigger] rest[a]).object.id
            != batch[i].object.id by {
            assert(batch[a].object.id != batch[i].object.id);
        }
        lemma_applied_others(shown, rest, batch[i].object.id);
    }
}

/// An object that no snapshot is of stays as it was.
proof fn lemma_applied_others(shown: ProjectionView, batch: Seq<NamespaceSnapshot>, id: Id)
    ensures
        (forall|a: int| 0 <= a < batch.len() ==> (#[trigger] batch[a]).object.id != id) ==> {
            let after = applied_all(shown, shown, batch);
            after.objects.contains_key(id) == shown.objects.contains_key(id) && (
            after.objects.contains_key(id) ==> after.objects[id] == shown.objects[id])
        },
    decreases batch.len(),
{
    if batch.len() > 0 {
        let rest = batch.drop_last();
        lemma_applied_others(shown, rest, id);
        if forall|a: int| 0 <= a < batch.len() ==> (#[trigger] batch[a]).object.id != id {
            assert(batch[batch.len() - 1].object.id != id);
            assert forall|a: int| 0 <= a < rest.len() implies (#[trigger] rest[a]).object.id
                != id by {
                assert(batch[a].object.id != id);
            }
        }
    }
}

} // verus!
