//! Retained routes to local changes, including links between collections.
//! They never queue folder recreation and never grant provider permission.
use crate::journal::records::{JournalError, NamespaceNames, NamespaceObject};
use crate::journal::tables::Table;
use crate::model::{Id, Node, NodeKind, NodeView, Scope, ScopeView};
use crate::text::{contains_char, lowercase, same_text, to_lowercase};
#[allow(unused_imports)]
use crate::seqs::{lemma_pop_contains, lemma_prefix_contains, lemma_push_contains};
use vstd::prelude::*;

verus! {

/// An item of a scope.
pub type IdentityView = (ScopeView, Seq<char>);

/// A name below a parent, folded by the rules of its scope.
pub type SlotView = (ScopeView, Seq<char>, Seq<char>);

/// How a name is compared.
pub open spec fn folded(names: NamespaceNames, name: Seq<char>) -> Seq<char> {
    match names {
        NamespaceNames::Sensitive => name,
        NamespaceNames::Insensitive => lowercase(name),
    }
}

/// How a name is compared.
pub fn fold(names: NamespaceNames, name: &String) -> (result: String)
    ensures
        result@ == folded(names, name@),
{
    match names {
        NamespaceNames::Sensitive => name.clone(),
        NamespaceNames::Insensitive => to_lowercase(name.as_str()),
    }
}

/// The slot an object occupies, or would occupy.
pub open spec fn slot_of(object: NamespaceObject) -> Option<SlotView> {
    match object.node.parent_id {
        Some(parent) => Some((object.scope@, parent@, folded(object.names, object.node.name@))),
        None => None,
    }
}

/// A slot as plain text.
#[derive(Debug)]
pub struct Slot {
    pub scope: Scope,
    pub parent: String,
    pub name: String,
}

impl View for Slot {
    type V = SlotView;

    open spec fn view(&self) -> SlotView {
        (self.scope@, self.parent@, self.name@)
    }
}

impl Slot {
    /// Equality by content.
    pub fn same(&self, other: &Slot) -> (same: bool)
        ensures
            same == (self@ == other@),
    {
        self.scope.same(&other.scope) && self.parent == other.parent && self.name == other.name
    }
}

/// The slot an object occupies, or would occupy.
pub fn slot(object: &NamespaceObject) -> (result: Option<Slot>)
    ensures
        match result {
            Some(value) => slot_of(*object) == Some(value@),
            None => slot_of(*object) is None,
        },
{
    match &object.node.parent_id {
        Some(parent) => Some(
            Slot {
                scope: object.scope.clone(),
                parent: parent.clone(),
                name: fold(object.names, &object.node.name),
            },
        ),
        None => None,
    }
}

/// The object has a directory entry of its own.
pub open spec fn live(object: NamespaceObject) -> bool {
    !object.follows_remote && !object.unlinked
}

/// The identity below which an object is presented.
pub open spec fn parent_identity(object: NamespaceObject) -> Option<IdentityView> {
    match object.node.parent_id {
        Some(parent) => Some((object.scope@, parent@)),
        None => None,
    }
}

/// The provider identity of an object.
pub open spec fn remote_identity(object: NamespaceObject) -> Option<IdentityView> {
    match object.remote {
        Some(remote) => Some((object.scope@, remote.id@)),
        None => None,
    }
}

/// The identity that a link leads to.
pub open spec fn link_identity(object: NamespaceObject) -> Option<IdentityView> {
    match object.node.target {
        Some(target) => Some(
            (ScopeView { collection: target.collection@, ..object.scope@ }, target.item@),
        ),
        None => None,
    }
}

/// `route` is a folder that holds `object`, or a link whose target holds it or
/// is it. A link addresses provider identity; a parent addresses local identity.
pub open spec fn leads(object: NamespaceObject, route: NamespaceObject) -> bool {
    !route.unlinked && ((route.node.kind == NodeKind::Folder && parent_identity(object) == Some(
        (route.scope@, route.node.id@),
    )) || (link_identity(route) is Some && (link_identity(route) == parent_identity(object)
        || link_identity(route) == remote_identity(object))))
}

/// Both objects are present and the second leads to the first.
pub open spec fn leads_in(objects: Map<Id, NamespaceObject>, object: Id, route: Id) -> bool {
    objects.contains_key(object) && objects.contains_key(route) && leads(
        objects[object],
        objects[route],
    )
}

/// The object is found from a live object in this many steps along its routes.
pub open spec fn reached(objects: Map<Id, NamespaceObject>, id: Id, steps: nat) -> bool
    decreases steps,
{
    objects.contains_key(id) && if steps == 0 {
        live(objects[id])
    } else {
        exists|from: Id|
            reached(objects, from, (steps - 1) as nat) && #[trigger] leads_in(objects, from, id)
    }
}

/// The object is live or on a route to one that is.
pub open spec fn retained(objects: Map<Id, NamespaceObject>, id: Id) -> bool {
    exists|steps: nat| reached(objects, id, steps)
}

/// A retained object makes this identity a directory.
pub open spec fn opens(object: NamespaceObject, identity: IdentityView) -> bool {
    ||| object.node.kind == NodeKind::Folder && identity == (object.scope@, object.node.id@)
    ||| match object.node.target {
        Some(target) => (target.kind is None || target.kind == Some(NodeKind::Folder))
            && link_identity(object) == Some(identity),
        None => false,
    }
}

/// What is retained of a namespace.
#[verifier::ext_equal]
pub struct RoutesView {
    pub objects: Set<Id>,
    pub directories: Set<IdentityView>,
    pub slots: Set<(SlotView, Id)>,
}

/// What is retained of a namespace.
pub open spec fn routes(objects: Map<Id, NamespaceObject>) -> RoutesView {
    RoutesView {
        objects: Set::new(|id: Id| retained(objects, id)),
        directories: Set::new(
            |identity: IdentityView|
                exists|id: Id| #[trigger] retained(objects, id) && opens(objects[id], identity),
        ),
        slots: Set::new(
            |entry: (SlotView, Id)|
                retained(objects, entry.1) && slot_of(objects[entry.1]) == Some(entry.0),
        ),
    }
}

/// Every retained object is in a set that holds the live objects and is closed
/// under routes.
proof fn lemma_closed_holds_reached(
    objects: Map<Id, NamespaceObject>,
    closed: Set<Id>,
    id: Id,
    steps: nat,
)
    requires
        forall|k: Id|
            #[trigger] objects.contains_key(k) && live(objects[k]) ==> closed.contains(k),
        forall|a: Id, b: Id|
            closed.contains(a) && #[trigger] leads_in(objects, a, b) ==> closed.contains(b),
        reached(objects, id, steps),
    ensures
        closed.contains(id),
    decreases steps,
{
    if steps > 0 {
        let from = choose|from: Id|
            reached(objects, from, (steps - 1) as nat) && #[trigger] leads_in(objects, from, id);
        lemma_closed_holds_reached(objects, closed, from, (steps - 1) as nat);
    }
}

/// Routes of a retained object are retained.
proof fn lemma_route_retained(objects: Map<Id, NamespaceObject>, from: Id, id: Id)
    requires
        retained(objects, from),
        leads_in(objects, from, id),
    ensures
        retained(objects, id),
{
    let steps = choose|steps: nat| reached(objects, from, steps);
    assert(reached(objects, id, steps + 1));
}

/// Whether a link's target is this item.
fn links_to(route: &NamespaceObject, scope: &Scope, item: &str) -> (found: bool)
    ensures
        found == (link_identity(*route) == Some((scope@, item@))),
{
    match &route.node.target {
        Some(target) => route.scope.account == scope.account && route.scope.provider
            == scope.provider && target.collection == scope.collection && same_text(
            target.item.as_str(),
            item,
        ),
        None => false,
    }
}

/// Whether `route` leads to `object`.
fn leads_to(object: &NamespaceObject, route: &NamespaceObject) -> (found: bool)
    ensures
        found == leads(*object, *route),
{
    if route.unlinked {
        return false;
    }
    if let Some(parent) = &object.node.parent_id {
        if route.node.kind == NodeKind::Folder && route.scope.same(&object.scope)
            && route.node.id == *parent {
            return true;
        }
        if links_to(route, &object.scope, parent.as_str()) {
            return true;
        }
    }
    if let Some(remote) = &object.remote {
        if links_to(route, &object.scope, remote.id.as_str()) {
            return true;
        }
    }
    false
}

/// What is retained of a namespace: the live objects and every observed folder or
/// link on a route to one.
#[derive(Debug)]
pub struct RetainedAncestors {
    pub objects: Table<bool>,
    pub directories: Vec<(Scope, String)>,
    pub slots: Vec<(Slot, Id)>,
}

impl View for RetainedAncestors {
    type V = RoutesView;

    open spec fn view(&self) -> RoutesView {
        RoutesView {
            objects: self.objects@.dom(),
            directories: directory_set(self.directories@),
            slots: slot_set(self.slots@),
        }
    }
}

/// The identities that a sequence of rows holds.
pub open spec fn directory_set(rows: Seq<(Scope, String)>) -> Set<IdentityView> {
    Set::new(
        |identity: IdentityView|
            exists|i: int| #![trigger rows[i]] 0 <= i < rows.len() && (rows[i].0@, rows[i].1@) == identity,
    )
}

/// The slots that a sequence of rows holds.
pub open spec fn slot_set(rows: Seq<(Slot, Id)>) -> Set<(SlotView, Id)> {
    Set::new(
        |entry: (SlotView, Id)|
            exists|i: int| #![trigger rows[i]] 0 <= i < rows.len() && (rows[i].0@, rows[i].1) == entry,
    )
}

proof fn lemma_directory_push(rows: Seq<(Scope, String)>, row: (Scope, String))
    ensures
        directory_set(rows.push(row)) == directory_set(rows).insert((row.0@, row.1@)),
{
    let more = rows.push(row);
    assert forall|x: IdentityView|
        directory_set(more).contains(x) <==> directory_set(rows).insert((row.0@, row.1@)).contains(
            x,
        ) by {
        if directory_set(rows).contains(x) {
            let i = choose|i: int|
                #![trigger rows[i]]
                0 <= i < rows.len() && (rows[i].0@, rows[i].1@) == x;
            assert(more[i] == rows[i]);
        }
        assert(more[rows.len() as int] == row);
        if directory_set(more).contains(x) {
            let i = choose|i: int|
                #![trigger more[i]]
                0 <= i < more.len() && (more[i].0@, more[i].1@) == x;
            if i < rows.len() {
                assert(rows[i] == more[i]);
            }
        }
    }
    assert(directory_set(more) =~= directory_set(rows).insert((row.0@, row.1@)));
}

proof fn lemma_slot_push(rows: Seq<(Slot, Id)>, row: (Slot, Id))
    ensures
        slot_set(rows.push(row)) == slot_set(rows).insert((row.0@, row.1)),
{
    let more = rows.push(row);
    assert forall|x: (SlotView, Id)|
        slot_set(more).contains(x) <==> slot_set(rows).insert((row.0@, row.1)).contains(x) by {
        if slot_set(rows).contains(x) {
            let i = choose|i: int|
                #![trigger rows[i]]
                0 <= i < rows.len() && (rows[i].0@, rows[i].1) == x;
            assert(more[i] == rows[i]);
        }
        assert(more[rows.len() as int] == row);
        if slot_set(more).contains(x) {
            let i = choose|i: int|
                #![trigger more[i]]
                0 <= i < more.len() && (more[i].0@, more[i].1) == x;
            if i < rows.len() {
                assert(rows[i] == more[i]);
            }
        }
    }
    assert(slot_set(more) =~= slot_set(rows).insert((row.0@, row.1)));
}

/// The live objects, in increasing order of identity.
fn live_ids(objects: &Table<NamespaceObject>, ids: &Vec<Id>) -> (found: Vec<Id>)
    requires
        forall|i: int| 0 <= i < ids@.len() ==> objects@.contains_key(#[trigger] ids@[i]),
    ensures
        forall|k: Id|
            #[trigger] found@.contains(k) <==> ids@.contains(k) && live(objects@[k]),
{
    let mut found: Vec<Id> = Vec::new();
    let mut i: usize = 0;
    while i < ids.len()
        invariant
            i <= ids@.len(),
            forall|i: int| 0 <= i < ids@.len() ==> objects@.contains_key(#[trigger] ids@[i]),
            forall|k: Id|
                #[trigger] found@.contains(k) <==> ids@.subrange(0, i as int).contains(k) && live(
                    objects@[k],
                ),
        decreases ids@.len() - i,
    {
        let id = ids[i];
        proof {
            lemma_prefix_contains(ids@, i as int);
        }
        if let Some(object) = objects.get(id) {
            if !object.follows_remote && !object.unlinked {
                proof {
                    lemma_push_contains(found@, id);
                }
                found.push(id);
            }
        }
        i = i + 1;
    }
    proof {
        assert(ids@.subrange(0, i as int) =~= ids@);
    }
    found
}

/// Adds every route of one object to the work list.
fn push_routes(
    objects: &Table<NamespaceObject>,
    ids: &Vec<Id>,
    object: &NamespaceObject,
    pending: &mut Vec<Id>,
)
    requires
        forall|i: int| 0 <= i < ids@.len() ==> objects@.contains_key(#[trigger] ids@[i]),
    ensures
        forall|k: Id|
            #[trigger] final(pending)@.contains(k) <==> old(pending)@.contains(k) || (ids@.contains(
                k,
            ) && leads(*object, objects@[k])),
{
    let mut i: usize = 0;
    while i < ids.len()
        invariant
            i <= ids@.len(),
            forall|i: int| 0 <= i < ids@.len() ==> objects@.contains_key(#[trigger] ids@[i]),
            forall|k: Id|
                #[trigger] pending@.contains(k) <==> old(pending)@.contains(k) || (ids@.subrange(
                    0,
                    i as int,
                ).contains(k) && leads(*object, objects@[k])),
        decreases ids@.len() - i,
    {
        let id = ids[i];
        proof {
            lemma_prefix_contains(ids@, i as int);
        }
        if let Some(route) = objects.get(id) {
            if leads_to(object, route) {
                proof {
                    lemma_push_contains(pending@, id);
                }
                pending.push(id);
            }
        }
        i = i + 1;
    }
    proof {
        assert(ids@.subrange(0, i as int) =~= ids@);
    }
}

/// The identities of everything that is retained.
fn retained_ids(objects: &Table<NamespaceObject>) -> (visited: Table<bool>)
    ensures
        forall|k: Id| #[trigger] visited@.contains_key(k) <==> retained(objects@, k),
{
    let ids = objects.ids();
    let mut visited: Table<bool> = Table::new();
    let mut pending = live_ids(objects, &ids);
    proof {
        assert forall|k: Id| #[trigger] pending@.contains(k) implies retained(objects@, k)
            && objects@.contains_key(k) by {
            assert(reached(objects@, k, 0));
        }
        assert(visited@.dom() =~= Set::<Id>::empty());
    }
    while pending.len() > 0
        invariant
            forall|k: Id| ids@.contains(k) <==> objects@.contains_key(k),
            forall|i: int| 0 <= i < ids@.len() ==> objects@.contains_key(#[trigger] ids@[i]),
            objects@.dom().finite(),
            ids@.len() == objects@.len(),
            visited@.dom().finite(),
            visited@.dom().subset_of(objects@.dom()),
            visited@.dom().len() <= objects@.dom().len(),
            forall|k: Id| #[trigger] visited@.contains_key(k) ==> retained(objects@, k),
            forall|k: Id|
                #[trigger] pending@.contains(k) ==> retained(objects@, k) && objects@.contains_key(k),
            forall|k: Id|
                #[trigger] objects@.contains_key(k) && live(objects@[k])
                    ==> visited@.contains_key(k) || pending@.contains(k),
            forall|a: Id, b: Id|
                visited@.contains_key(a) && #[trigger] leads_in(objects@, a, b)
                    ==> visited@.contains_key(b) || pending@.contains(b),
        decreases objects@.dom().len() - visited@.dom().len(), pending@.len(),
    {
        let ghost before = pending@;
        let popped = pending.pop();
        if let Some(id) = popped {
            proof {
                lemma_pop_contains(before);
                assert(before.contains(id));
                assert(retained(objects@, id) && objects@.contains_key(id));
            }
            if !visited.has(id) {
                let ghost seen = visited@;
                visited.put(id, true);
                proof {
                    assert(visited@.dom() =~= seen.dom().insert(id));
                    vstd::set_lib::lemma_len_subset(visited@.dom(), objects@.dom());
                }
                if let Some(object) = objects.get(id) {
                    push_routes(objects, &ids, object, &mut pending);
                    proof {
                        assert forall|k: Id| #[trigger]
                            pending@.contains(k) implies retained(objects@, k)
                            && objects@.contains_key(k) by {
                            if ids@.contains(k) && leads(objects@[id], objects@[k]) {
                                assert(leads_in(objects@, id, k));
                                lemma_route_retained(objects@, id, k);
                            }
                        }
                    }
                }
            }
        }
    }
    proof {
        assert forall|k: Id| retained(objects@, k) implies #[trigger] visited@.contains_key(k) by {
            let steps = choose|steps: nat| reached(objects@, k, steps);
            assert forall|j: Id| !#[trigger] pending@.contains(j) by {
                if pending@.contains(j) {
                    let i = choose|i: int| 0 <= i < pending@.len() && pending@[i] == j;
                    assert(false);
                }
            }
            lemma_closed_holds_reached(objects@, visited@.dom(), k, steps);
        }
    }
    visited
}

impl RetainedAncestors {
    /// Finds everything that is retained of a namespace.
    pub fn new(objects: &Table<NamespaceObject>) -> (result: Self)
        ensures
            result@ == routes(objects@),
    {
        let visited = retained_ids(objects);
        let ids = visited.ids();
        let mut directories: Vec<(Scope, String)> = Vec::new();
        let mut slots: Vec<(Slot, Id)> = Vec::new();
        let mut i: usize = 0;
        let ghost m = objects@;
        while i < ids.len()
            invariant
                i <= ids@.len(),
                m == objects@,
                forall|k: Id| #[trigger] ids@.contains(k) <==> retained(m, k),
                forall|x: IdentityView|
                    directory_set(directories@).contains(x) <==> exists|j: int|
                        0 <= j < i && opens(m[#[trigger] ids@[j]], x),
                forall|x: (SlotView, Id)|
                    slot_set(slots@).contains(x) <==> exists|j: int|
                        0 <= j < i && #[trigger] ids@[j] == x.1 && slot_of(m[x.1]) == Some(x.0),
            decreases ids@.len() - i,
        {
            let id = ids[i];
            proof {
                assert(ids@.contains(id)) by {
                    assert(ids@[i as int] == id);
                }
                let steps = choose|steps: nat| reached(m, id, steps);
                assert(m.contains_key(id));
            }
            let ghost was_directories = directories@;
            let ghost was_slots = slots@;
            if let Some(object) = objects.get(id) {
                if let Some(value) = slot(object) {
                    proof {
                        lemma_slot_push(slots@, (value, id));
                    }
                    slots.push((value, id));
                }
                if object.node.kind == NodeKind::Folder {
                    let row = (object.scope.clone(), object.node.id.clone());
                    proof {
                        lemma_directory_push(directories@, row);
                    }
                    directories.push(row);
                }
                if let Some(target) = &object.node.target {
                    let folder = match target.kind {
                        None => true,
                        Some(kind) => kind == NodeKind::Folder,
                    };
                    if folder {
                        let row = (
                            Scope {
                                account: object.scope.account.clone(),
                                provider: object.scope.provider.clone(),
                                collection: target.collection.clone(),
                            },
                            target.item.clone(),
                        );
                        proof {
                            lemma_directory_push(directories@, row);
                        }
                        directories.push(row);
                    }
                }
                proof {
                    assert forall|x: IdentityView|
                        directory_set(directories@).contains(x) <==> directory_set(
                            was_directories,
                        ).contains(x) || opens(m[id], x) by {}
                    assert forall|x: (SlotView, Id)|
                        slot_set(slots@).contains(x) <==> slot_set(was_slots).contains(x) || (x.1
                            == id && slot_of(m[id]) == Some(x.0)) by {}
                }
            }
            proof {
                assert forall|x: IdentityView|
                    directory_set(directories@).contains(x) <==> exists|j: int|
                        0 <= j < i + 1 && opens(m[#[trigger] ids@[j]], x) by {
                    if directory_set(was_directories).contains(x) {
                        let j = choose|j: int| 0 <= j < i && opens(m[#[trigger] ids@[j]], x);
                        assert(0 <= j < i + 1 && opens(m[ids@[j]], x));
                    }
                    if opens(m[id], x) {
                        assert(opens(m[ids@[i as int]], x));
                    }
                }
                assert forall|x: (SlotView, Id)|
                    slot_set(slots@).contains(x) <==> exists|j: int|
                        0 <= j < i + 1 && #[trigger] ids@[j] == x.1 && slot_of(m[x.1]) == Some(x.0) by {
                    if slot_set(was_slots).contains(x) {
                        let j = choose|j: int|
                            0 <= j < i && #[trigger] ids@[j] == x.1 && slot_of(m[x.1]) == Some(x.0);
                        assert(0 <= j < i + 1 && ids@[j] == x.1);
                    }
                    if x.1 == id && slot_of(m[id]) == Some(x.0) {
                        assert(ids@[i as int] == x.1);
                    }
                }
            }
            i = i + 1;
        }
        let result = RetainedAncestors { objects: visited, directories, slots };
        proof {
            assert forall|x: IdentityView|
                result@.directories.contains(x) <==> routes(m).directories.contains(x) by {
                if routes(m).directories.contains(x) {
                    let k = choose|k: Id| #[trigger] retained(m, k) && opens(m[k], x);
                    assert(ids@.contains(k));
                    let j = choose|j: int| 0 <= j < ids@.len() && ids@[j] == k;
                    assert(opens(m[ids@[j]], x));
                }
                if result@.directories.contains(x) {
                    let j = choose|j: int| 0 <= j < i && opens(m[#[trigger] ids@[j]], x);
                    assert(ids@.contains(ids@[j]));
                    assert(retained(m, ids@[j]));
                }
            }
            assert forall|x: (SlotView, Id)|
                result@.slots.contains(x) <==> routes(m).slots.contains(x) by {
                if routes(m).slots.contains(x) {
                    assert(ids@.contains(x.1));
                    let j = choose|j: int| 0 <= j < ids@.len() && ids@[j] == x.1;
                    assert(ids@[j] == x.1);
                }
                if result@.slots.contains(x) {
                    let j = choose|j: int|
                        0 <= j < i && #[trigger] ids@[j] == x.1 && slot_of(m[x.1]) == Some(x.0);
                    assert(ids@.contains(ids@[j]));
                }
            }
            assert(result@.directories =~= routes(m).directories);
            assert(result@.slots =~= routes(m).slots);
            assert(result@.objects =~= routes(m).objects);
        }
        result
    }

    /// Refuses a slot that another retained object holds.
    pub fn check_slot(&self, object: &NamespaceObject) -> (result: Result<(), JournalError>)
        ensures
            match result {
                Ok(()) => !slot_held(self@, *object),
                Err(error) => error == JournalError::Stale && slot_held(self@, *object),
            },
    {
        let wanted = match slot(object) {
            Some(value) => value,
            None => {
                return Ok(());
            },
        };
        let mut i: usize = 0;
        while i < self.slots.len()
            invariant
                i <= self.slots@.len(),
                slot_of(*object) == Some(wanted@),
                forall|j: int|
                    0 <= j < i ==> !(#[trigger] self.slots@[j].0@ == wanted@ && self.slots@[j].1
                        != object.id),
            decreases self.slots@.len() - i,
        {
            if self.slots[i].1 != object.id && self.slots[i].0.same(&wanted) {
                proof {
                    let other = self.slots@[i as int].1;
                    assert(holds(self@, wanted@, other));
                    assert(holds(self@, slot_of(*object)->0, other));
                    assert(slot_held(self@, *object));
                }
                return Err(JournalError::Stale);
            }
            i = i + 1;
        }
        proof {
            if slot_held(self@, *object) {
                let other = choose|other: Id|
                    other != object.id && #[trigger] holds(self@, wanted@, other);
                let j = choose|j: int|
                    #![trigger self.slots@[j]]
                    0 <= j < self.slots@.len() && (self.slots@[j].0@, self.slots@[j].1) == (
                        wanted@,
                        other,
                    );
                assert(self.slots@[j].0@ == wanted@);
            }
        }
        Ok(())
    }

    /// Whether the object is live or on a route to one that is.
    pub fn contains(&self, id: Id) -> (found: bool)
        ensures
            found == self@.objects.contains(id),
    {
        self.objects.has(id)
    }

    /// Whether the identity is a directory on a retained route.
    pub fn directory(&self, scope: &Scope, item: &str) -> (found: bool)
        ensures
            found == self@.directories.contains((scope@, item@)),
    {
        let mut i: usize = 0;
        while i < self.directories.len()
            invariant
                i <= self.directories@.len(),
                forall|j: int|
                    0 <= j < i ==> (#[trigger] self.directories@[j].0@, self.directories@[j].1@)
                        != (scope@, item@),
            decreases self.directories@.len() - i,
        {
            if self.directories[i].0.same(scope) && same_text(self.directories[i].1.as_str(), item) {
                proof {
                    assert((self.directories@[i as int].0@, self.directories@[i as int].1@) == (
                        scope@,
                        item@,
                    ));
                }
                return true;
            }
            i = i + 1;
        }
        false
    }
}

/// Another retained object holds the slot.
pub open spec fn slot_held(routes: RoutesView, object: NamespaceObject) -> bool {
    match slot_of(object) {
        Some(slot) => exists|other: Id|
            other != object.id && #[trigger] holds(routes, slot, other),
        None => false,
    }
}

/// The object is retained in this slot.
pub open spec fn holds(routes: RoutesView, slot: SlotView, id: Id) -> bool {
    routes.slots.contains((slot, id))
}

/// A text that can name something: not empty, at most 4096 bytes, no NUL.
pub open spec fn names_something(text: Seq<char>) -> bool {
    text.len() > 0 && vstd::utf8::encode_utf8(text).len() <= 4096 && !text.contains('\0')
}

/// Whether the text can name something.
pub fn valid_text(value: &str) -> (valid: bool)
    ensures
        valid == names_something(value@),
{
    !value.is_empty() && value.as_bytes().len() <= 4096 && !contains_char(value, '\0')
}

/// A node that can stand on a route: a plain folder, or a shortcut with a target.
pub open spec fn route_node(node: NodeView) -> bool {
    &&& names_something(node.id)
    &&& names_something(node.name)
    &&& node.name != "."@
    &&& node.name != ".."@
    &&& !node.name.contains('/')
    &&& node.parent_id is Some
    &&& names_something(node.parent_id->0)
    &&& match (node.kind, node.target) {
        (NodeKind::Folder, None) => true,
        (NodeKind::Shortcut, Some(target)) => names_something(target.collection)
            && names_something(target.item),
        _ => false,
    }
}

/// Whether the node can stand on a route.
pub fn valid_node(node: &Node) -> (valid: bool)
    ensures
        valid == route_node(node@),
{
    let parent = match &node.parent_id {
        Some(parent) => valid_text(parent.as_str()),
        None => false,
    };
    let shape = match (&node.kind, &node.target) {
        (NodeKind::Folder, None) => true,
        (NodeKind::Shortcut, Some(target)) => valid_text(target.collection.as_str())
            && valid_text(target.item.as_str()),
        _ => false,
    };
    valid_text(node.id.as_str()) && valid_text(node.name.as_str()) && !same_text(
        node.name.as_str(),
        ".",
    ) && !same_text(node.name.as_str(), "..") && !contains_char(node.name.as_str(), '/') && parent
        && shape
}

/// Names are compared as they are where case counts, and in lower case where it does not; an
/// object stands in the slot of its name below its parent.
pub proof fn slots_follow_the_name_rules(a: NamespaceObject, b: NamespaceObject)
    ensures
        slot_of(a) is None <==> a.node.parent_id is None,
        a.names is Sensitive && b.names is Sensitive && a.node.parent_id is Some
            && b.node.parent_id is Some ==> (slot_of(a) == slot_of(b) <==> a.scope@ == b.scope@
            && a.node.parent_id->0@ == b.node.parent_id->0@ && a.node.name@ == b.node.name@),
        a.names is Insensitive && b.names is Insensitive && a.node.parent_id is Some
            && b.node.parent_id is Some ==> (slot_of(a) == slot_of(b) <==> a.scope@ == b.scope@
            && a.node.parent_id->0@ == b.node.parent_id->0@ && lowercase(a.node.name@) == lowercase(
            b.node.name@,
        )),
{
}

/// An object keeps its own entry until it is removed or handed to the provider, and keeps every
/// folder and link on the way to it: the folder that it stands in, and the links that lead to
/// that folder or to the object itself. What was removed leads nowhere.
pub proof fn ways_lead_through_folders_and_links(object: NamespaceObject, route: NamespaceObject)
    ensures
        live(object) <==> !object.follows_remote && !object.unlinked,
        route.unlinked ==> !leads(object, route),
        !route.unlinked && route.node.kind == NodeKind::Folder && object.node.parent_id is Some
            && route.scope@ == object.scope@ && route.node.id@ == object.node.parent_id->0@
            ==> leads(object, route),
        !route.unlinked && route.node.target is Some && object.node.parent_id is Some
            && route.scope@.account == object.scope@.account && route.scope@.provider
            == object.scope@.provider && route.node.target->0.collection@
            == object.scope@.collection && route.node.target->0.item@
            == object.node.parent_id->0@ ==> leads(object, route),
        !route.unlinked && route.node.target is Some && object.remote is Some
            && route.scope@.account == object.scope@.account && route.scope@.provider
            == object.scope@.provider && route.node.target->0.collection@
            == object.scope@.collection && route.node.target->0.item@ == object.remote->0.id@
            ==> leads(object, route),
        leads(object, route) && route.node.target is None ==> route.node.kind == NodeKind::Folder
            && object.node.parent_id is Some && route.node.id@ == object.node.parent_id->0@,
{
}

/// Only a named folder, or a named link with a target, stands on a way, and neither at the
/// root nor under a name that no directory could show.
pub proof fn ways_are_made_of_named_nodes(node: NodeView)
    ensures
        route_node(node) ==> {
            &&& node.parent_id is Some
            &&& 0 < node.name.len() && !node.name.contains('/') && !node.name.contains('\0')
            &&& node.name != "."@ && node.name != ".."@
            &&& (node.kind == NodeKind::Folder && node.target is None) || (node.kind
                == NodeKind::Shortcut && node.target is Some)
        },
        node.kind == NodeKind::File ==> !route_node(node),
        node.kind == NodeKind::Folder && node.target is None && node.parent_id is Some
            && names_something(node.parent_id->0) && names_something(node.id) && names_something(
            node.name,
        ) && node.name != "."@ && node.name != ".."@ && !node.name.contains('/') ==> route_node(
            node,
        ),
{
}

} // verus!
