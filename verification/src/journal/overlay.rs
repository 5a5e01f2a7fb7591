//! The projection of the local namespace over a provider's listing. The stored and the
//! mounted view use the same one.
use crate::journal::ancestry::{fold, folded, routes, RetainedAncestors, RoutesView};
use crate::journal::namespace::{first_where, is_first, lemma_first};
use crate::journal::records::{
    JournalError, NamespaceNames, NamespaceObject, UploadJournal,
};
use crate::journal::tables::{increasing, Table};
use crate::model::{Id, Node, NodeView, Scope, ScopeView};
#[allow(unused_imports)]
use crate::seqs::lemma_prefix_contains;
use crate::text::{
    comes_before, lemma_text_order, lemma_text_transitive, optional_is, optional_view, same_text,
    text_less,
};
use vstd::prelude::*;

verus! {

/// A provider's node that stands where a local entry is.
#[derive(Debug)]
pub struct NamespaceCollision {
    pub local: Id,
    pub remote: Node,
}

/// A directory as it is presented.
#[derive(Debug)]
#[must_use]
pub struct NamespaceListing {
    pub nodes: Vec<Node>,
    /// Occupants at the provider are kept apart, not shown as duplicate names or
    /// mistaken for the pending local entry.
    pub conflicts: Vec<NamespaceCollision>,
}

/// The objects of one projection: those of a scope, and what is retained of them all.
pub struct ProjectionView {
    pub objects: Map<Id, NamespaceObject>,
    pub kept: RoutesView,
    pub scope: ScopeView,
    pub parent: Seq<char>,
}

/// The object belongs to the scope.
pub open spec fn member(p: ProjectionView, id: Id) -> bool {
    p.objects.contains_key(id) && p.objects[id].scope@ == p.scope
}

/// The object only gives the provider's node its local identity.
pub open spec fn is_alias(p: ProjectionView, id: Id) -> bool {
    member(p, id) && p.objects[id].follows_remote && !p.kept.objects.contains(id)
}

/// The objects of a scope.
pub open spec fn in_scope(scope: ScopeView) -> spec_fn(NamespaceObject) -> bool {
    |object: NamespaceObject| object.scope@ == scope
}

/// The rules by which names are told apart: those of the first object.
pub open spec fn rules_of(p: ProjectionView) -> NamespaceNames {
    match first_where(p.objects, in_scope(p.scope)) {
        Some(object) => object.names,
        None => NamespaceNames::Insensitive,
    }
}

/// The objects of the scope contradict each other.
pub open spec fn contradictory(p: ProjectionView) -> bool {
    exists|id: Id| #[trigger]
        member(p, id) && (p.objects[id].names != rules_of(p) || (is_alias(p, id) && (
        !p.objects[id].remote_owned || p.objects[id].remote is None)))
}

/// A local object owns this provider item and stands for it.
pub open spec fn hides(p: ProjectionView, id: Id, item: Seq<char>) -> bool {
    member(p, id) && !is_alias(p, id) && p.objects[id].remote_owned && p.objects[id].remote is Some
        && p.objects[id].remote->0.id@ == item
}

/// Some local object stands for this provider item.
pub open spec fn is_hidden(p: ProjectionView, item: Seq<char>) -> bool {
    exists|id: Id| #[trigger] hides(p, id, item)
}

/// The object has an entry in the directory, under this folded name.
pub open spec fn stands_under(p: ProjectionView, id: Id, key: Seq<char>) -> bool {
    member(p, id) && !is_alias(p, id) && !p.objects[id].unlinked && optional_view(
        p.objects[id].node.parent_id,
    ) == Some(p.parent) && folded(rules_of(p), p.objects[id].node.name@) == key
}

/// The object has the entry: the last one, by identity, under this folded name.
pub open spec fn wins(p: ProjectionView, id: Id, key: Seq<char>) -> bool {
    stands_under(p, id, key) && forall|other: Id| #[trigger]
        stands_under(p, other, key) ==> other <= id
}

/// The alias of a provider item.
pub open spec fn aliases(p: ProjectionView, id: Id, item: Seq<char>) -> bool {
    is_alias(p, id) && p.objects[id].remote is Some && p.objects[id].remote->0.id@ == item
}

/// The last alias, by identity, of a provider item.
pub open spec fn last_alias(p: ProjectionView, id: Id, item: Seq<char>) -> bool {
    aliases(p, id, item) && forall|other: Id| #[trigger] aliases(p, other, item) ==> other <= id
}

/// The local identity of a provider item.
pub open spec fn shown_identity(p: ProjectionView, item: Seq<char>) -> Seq<char> {
    if exists|id: Id| last_alias(p, id, item) {
        p.objects[choose|id: Id| last_alias(p, id, item)].node.id@
    } else {
        item
    }
}

/// The folded name of a node.
pub open spec fn key_of(p: ProjectionView, node: NodeView) -> Seq<char> {
    folded(rules_of(p), node.name)
}

/// A local entry stands where the node would.
pub open spec fn is_blocked(p: ProjectionView, node: NodeView) -> bool {
    exists|id: Id| wins(p, id, key_of(p, node))
}

/// The node as it is presented.
pub open spec fn shown_node(p: ProjectionView, node: NodeView) -> NodeView {
    NodeView { id: shown_identity(p, node.id), parent_id: Some(p.parent), ..node }
}

/// The provider's nodes that are presented, in their order.
pub open spec fn shown_nodes(p: ProjectionView, remote: Seq<Node>) -> Seq<NodeView>
    decreases remote.len(),
{
    if remote.len() == 0 {
        Seq::empty()
    } else {
        let before = shown_nodes(p, remote.drop_last());
        let node = remote.last()@;
        if is_hidden(p, node.id) || is_blocked(p, node) {
            before
        } else {
            before.push(shown_node(p, node))
        }
    }
}

/// The provider's nodes that stand where a local entry is, in their order.
pub open spec fn blocked_nodes(p: ProjectionView, remote: Seq<Node>) -> Seq<Node>
    decreases remote.len(),
{
    if remote.len() == 0 {
        Seq::empty()
    } else {
        let before = blocked_nodes(p, remote.drop_last());
        let node = remote.last();
        if !is_hidden(p, node.id@) && is_blocked(p, node@) {
            before.push(node)
        } else {
            before
        }
    }
}

/// Some object has its entry in the directory.
pub open spec fn has_entry(p: ProjectionView, id: Id) -> bool {
    wins(p, id, folded(rules_of(p), p.objects[id].node.name@))
}

/// The local entries of the directory, by name.
pub open spec fn local_entries(p: ProjectionView, entries: Seq<Id>) -> bool {
    &&& forall|id: Id| #[trigger] entries.contains(id) <==> has_entry(p, id)
    &&& forall|i: int, j: int|
        0 <= i < j < entries.len() ==> text_less(
            p.objects[#[trigger] entries[i]].node.name@,
            p.objects[#[trigger] entries[j]].node.name@,
        )
}

/// The directory as it is presented: the provider's nodes first, then the local
/// entries by name.
pub open spec fn projects(p: ProjectionView, remote: Seq<Node>, listing: NamespaceListing) -> bool {
    exists|entries: Seq<Id>| #[trigger]
        local_entries(p, entries) && {
            let shown = shown_nodes(p, remote);
            &&& listing.nodes@.len() == shown.len() + entries.len()
            &&& forall|i: int| 0 <= i < shown.len() ==> (#[trigger] listing.nodes@[i])@ == shown[i]
            &&& forall|i: int|
                0 <= i < entries.len() ==> #[trigger] listing.nodes@[shown.len() + i]
                    == p.objects[entries[i]].node
        } && {
            let blocked = blocked_nodes(p, remote);
            &&& listing.conflicts@.len() == blocked.len()
            &&& forall|i: int|
                0 <= i < blocked.len() ==> (#[trigger] listing.conflicts@[i]).remote == blocked[i]
                    && wins(p, listing.conflicts@[i].local, key_of(p, blocked[i]@))
        }
}

/// What a projection of all objects starts from.
pub open spec fn projection(
    objects: Map<Id, NamespaceObject>,
    scope: ScopeView,
    parent: Seq<char>,
) -> ProjectionView {
    ProjectionView { objects, kept: routes(objects), scope, parent }
}

/// A projection being computed.
pub struct Projector<'a> {
    pub objects: &'a Table<NamespaceObject>,
    pub kept: &'a RetainedAncestors,
    pub scope: &'a Scope,
    pub parent: &'a str,
    pub ids: Vec<Id>,
    pub names: NamespaceNames,
}

impl<'a> Projector<'a> {
    /// What the projection is computed over.
    pub open spec fn over(&self) -> ProjectionView {
        ProjectionView {
            objects: self.objects@,
            kept: self.kept@,
            scope: self.scope@,
            parent: self.parent@,
        }
    }

    /// The identities are those of the objects, in order, and the rules are known.
    pub open spec fn inv(&self) -> bool {
        &&& increasing(self.ids@)
        &&& forall|id: Id| #[trigger] self.ids@.contains(id) <==> self.objects@.contains_key(id)
        &&& forall|j: int|
            0 <= j < self.ids@.len() ==> self.objects@.contains_key(#[trigger] self.ids@[j])
        &&& self.names == rules_of(self.over())
    }

    /// Whether an object only gives the provider's node its local identity.
    fn only_alias(&self, id: Id, object: &NamespaceObject) -> (alias: bool)
        requires
            self.objects@.contains_key(id),
            *object == self.objects@[id],
            object.scope@ == self.scope@,
        ensures
            alias == is_alias(self.over(), id),
    {
        object.follows_remote && !self.kept.contains(id)
    }

    /// Whether the objects of the scope contradict each other.
    fn is_contradictory(&self) -> (found: bool)
        requires
            self.inv(),
        ensures
            found == contradictory(self.over()),
    {
        let ghost p = self.over();
        let mut i: usize = 0;
        while i < self.ids.len()
            invariant
                i <= self.ids@.len(),
                self.inv(),
                p == self.over(),
                forall|j: int|
                    #![trigger self.ids@[j]]
                    0 <= j < i ==> !(member(p, self.ids@[j]) && (p.objects[self.ids@[j]].names
                        != rules_of(p) || (is_alias(p, self.ids@[j]) && (
                    !p.objects[self.ids@[j]].remote_owned || p.objects[self.ids@[j]].remote
                        is None)))),
            decreases self.ids@.len() - i,
        {
            let id = self.ids[i];
            assert(self.objects@.contains_key(self.ids@[i as int]));
            if let Some(object) = self.objects.get(id) {
                if object.scope.same(self.scope) {
                    if object.names != self.names {
                        proof {
                            assert(member(p, id));
                        }
                        return true;
                    }
                    if self.only_alias(id, object) && (!object.remote_owned
                        || object.remote.is_none()) {
                        proof {
                            assert(member(p, id));
                        }
                        return true;
                    }
                }
            }
            i = i + 1;
        }
        proof {
            assert forall|id: Id| #[trigger] member(p, id) implies !(p.objects[id].names != rules_of(p)
                || (is_alias(p, id) && (!p.objects[id].remote_owned || p.objects[id].remote
                is None))) by {
                assert(self.ids@.contains(id));
                let j = choose|j: int| 0 <= j < self.ids@.len() && self.ids@[j] == id;
                assert(self.ids@[j] == id);
            }
        }
        false
    }

    /// Whether some local object stands for a provider item.
    fn item_hidden(&self, item: &str) -> (found: bool)
        requires
            self.inv(),
        ensures
            found == is_hidden(self.over(), item@),
    {
        let ghost p = self.over();
        let mut i: usize = 0;
        while i < self.ids.len()
            invariant
                i <= self.ids@.len(),
                self.inv(),
                p == self.over(),
                forall|j: int| 0 <= j < i ==> !hides(p, #[trigger] self.ids@[j], item@),
            decreases self.ids@.len() - i,
        {
            let id = self.ids[i];
            assert(self.objects@.contains_key(self.ids@[i as int]));
            if let Some(object) = self.objects.get(id) {
                if object.scope.same(self.scope) && !self.only_alias(id, object)
                    && object.remote_owned {
                    if let Some(remote) = &object.remote {
                        if same_text(remote.id.as_str(), item) {
                            proof {
                                assert(hides(p, id, item@));
                            }
                            return true;
                        }
                    }
                }
            }
            i = i + 1;
        }
        proof {
            assert forall|id: Id| !(#[trigger] hides(p, id, item@)) by {
                if hides(p, id, item@) {
                    assert(self.ids@.contains(id));
                    let j = choose|j: int| 0 <= j < self.ids@.len() && self.ids@[j] == id;
                    assert(!hides(p, self.ids@[j], item@));
                }
            }
        }
        false
    }

    /// The object that has the entry under a folded name.
    fn winner(&self, key: &String) -> (found: Option<Id>)
        requires
            self.inv(),
        ensures
            match found {
                Some(id) => wins(self.over(), id, key@),
                None => forall|id: Id| !wins(self.over(), id, key@),
            },
    {
        let ghost p = self.over();
        let mut i: usize = self.ids.len();
        while i > 0
            invariant
                i <= self.ids@.len(),
                self.inv(),
                p == self.over(),
                forall|j: int|
                    i <= j < self.ids@.len() ==> !stands_under(p, #[trigger] self.ids@[j], key@),
            decreases i,
        {
            i = i - 1;
            let id = self.ids[i];
            assert(self.objects@.contains_key(self.ids@[i as int]));
            if let Some(object) = self.objects.get(id) {
                if object.scope.same(self.scope) && !self.only_alias(id, object) && !object.unlinked
                    && optional_is(&object.node.parent_id, self.parent) {
                    if fold(self.names, &object.node.name) == *key {
                        proof {
                            assert(stands_under(p, id, key@));
                            assert forall|other: Id| #[trigger]
                                stands_under(p, other, key@) implies other <= id by {
                                assert(self.ids@.contains(other));
                                let j = choose|j: int|
                                    0 <= j < self.ids@.len() && self.ids@[j] == other;
                                if j > i {
                                    assert(!stands_under(p, self.ids@[j], key@));
                                }
                                if j < i {
                                    assert(self.ids@[j] < self.ids@[i as int]);
                                }
                            }
                        }
                        return Some(id);
                    }
                }
            }
        }
        proof {
            assert forall|id: Id| !wins(p, id, key@) by {
                if wins(p, id, key@) {
                    assert(self.ids@.contains(id));
                    let j = choose|j: int| 0 <= j < self.ids@.len() && self.ids@[j] == id;
                    assert(!stands_under(p, self.ids@[j], key@));
                }
            }
        }
        None
    }

    /// The local identity of a provider item.
    fn identity(&self, item: &String) -> (identity: String)
        requires
            self.inv(),
        ensures
            identity@ == shown_identity(self.over(), item@),
    {
        let ghost p = self.over();
        let mut i: usize = self.ids.len();
        while i > 0
            invariant
                i <= self.ids@.len(),
                self.inv(),
                p == self.over(),
                forall|j: int|
                    i <= j < self.ids@.len() ==> !aliases(p, #[trigger] self.ids@[j], item@),
            decreases i,
        {
            i = i - 1;
            let id = self.ids[i];
            assert(self.objects@.contains_key(self.ids@[i as int]));
            if let Some(object) = self.objects.get(id) {
                if object.scope.same(self.scope) && self.only_alias(id, object) {
                    if let Some(remote) = &object.remote {
                        if remote.id == *item {
                            proof {
                                assert(aliases(p, id, item@));
                                assert forall|other: Id| #[trigger]
                                    aliases(p, other, item@) implies other <= id by {
                                    assert(self.ids@.contains(other));
                                    let j = choose|j: int|
                                        0 <= j < self.ids@.len() && self.ids@[j] == other;
                                    if j > i {
                                        assert(!aliases(p, self.ids@[j], item@));
                                    }
                                    if j < i {
                                        assert(self.ids@[j] < self.ids@[i as int]);
                                    }
                                }
                                assert(last_alias(p, id, item@));
                                let other = choose|other: Id| last_alias(p, other, item@);
                                assert(last_alias(p, other, item@));
                                assert(aliases(p, other, item@));
                                assert(other == id);
                            }
                            return object.node.id.clone();
                        }
                    }
                }
            }
        }
        proof {
            assert forall|id: Id| !last_alias(p, id, item@) by {
                if last_alias(p, id, item@) {
                    assert(self.ids@.contains(id));
                    let j = choose|j: int| 0 <= j < self.ids@.len() && self.ids@[j] == id;
                    assert(!aliases(p, self.ids@[j], item@));
                }
            }
        }
        item.clone()
    }

    /// The local entries of the directory, by name.
    fn entries(&self) -> (entries: Vec<Id>)
        requires
            self.inv(),
        ensures
            local_entries(self.over(), entries@),
    {
        let ghost p = self.over();
        let mut entries: Vec<Id> = Vec::new();
        let mut i: usize = 0;
        while i < self.ids.len()
            invariant
                i <= self.ids@.len(),
                self.inv(),
                p == self.over(),
                forall|id: Id| #[trigger]
                    entries@.contains(id) <==> has_entry(p, id) && self.ids@.subrange(
                        0,
                        i as int,
                    ).contains(id),
                forall|a: int, b: int|
                    0 <= a < b < entries@.len() ==> text_less(
                        p.objects[#[trigger] entries@[a]].node.name@,
                        p.objects[#[trigger] entries@[b]].node.name@,
                    ),
            decreases self.ids@.len() - i,
        {
            let id = self.ids[i];
            proof {
                lemma_prefix_contains(self.ids@, i as int);
                assert(self.objects@.contains_key(self.ids@[i as int]));
            }
            if let Some(object) = self.objects.get(id) {
                let key = fold(self.names, &object.node.name);
                let has = match self.winner(&key) {
                    Some(first) => first == id,
                    None => false,
                };
                proof {
                    if has_entry(p, id) {
                        let w = choose|w: Id| wins(p, w, key@);
                        assert(wins(p, id, key@));
                    }
                    assert(has == has_entry(p, id)) by {
                        if has_entry(p, id) {
                            assert(stands_under(p, id, key@));
                        }
                    }
                }
                if has {
                    self.insert_entry(&mut entries, id, object, Ghost(i as int));
                }
            }
            i = i + 1;
        }
        proof {
            assert(self.ids@.subrange(0, i as int) =~= self.ids@);
            assert forall|id: Id| #[trigger] entries@.contains(id) <==> has_entry(p, id) by {
                if has_entry(p, id) {
                    assert(member(p, id));
                    assert(self.ids@.contains(id));
                }
            }
        }
        entries
    }

    /// Puts an entry at its place by name.
    fn insert_entry(&self, entries: &mut Vec<Id>, id: Id, object: &NamespaceObject, Ghost(seen): Ghost<int>)
        requires
            self.inv(),
            0 <= seen < self.ids@.len(),
            self.ids@[seen] == id,
            self.objects@.contains_key(id),
            *object == self.objects@[id],
            has_entry(self.over(), id),
            forall|k: Id| #[trigger]
                old(entries)@.contains(k) <==> has_entry(self.over(), k) && self.ids@.subrange(
                    0,
                    seen,
                ).contains(k),
            forall|a: int, b: int|
                0 <= a < b < old(entries)@.len() ==> text_less(
                    self.objects@[#[trigger] old(entries)@[a]].node.name@,
                    self.objects@[#[trigger] old(entries)@[b]].node.name@,
                ),
        ensures
            forall|k: Id| #[trigger]
                final(entries)@.contains(k) <==> old(entries)@.contains(k) || k == id,
            forall|a: int, b: int|
                0 <= a < b < final(entries)@.len() ==> text_less(
                    self.objects@[#[trigger] final(entries)@[a]].node.name@,
                    self.objects@[#[trigger] final(entries)@[b]].node.name@,
                ),
    {
        let ghost p = self.over();
        let ghost m = self.objects@;
        let ghost before = entries@;
        let ghost name = object.node.name@;
        proof {
            assert forall|a: int| 0 <= a < before.len() implies m[#[trigger] before[a]].node.name@
                != name && m.contains_key(before[a]) by {
                let other = before[a];
                assert(before.contains(other));
                assert(has_entry(p, other));
                assert(member(p, other));
                assert(self.ids@.subrange(0, seen).contains(other));
                let j = choose|j: int| 0 <= j < seen && self.ids@.subrange(0, seen)[j] == other;
                assert(self.ids@[j] == other);
                assert(other < id);
                if m[other].node.name@ == name {
                    assert(stands_under(p, other, folded(rules_of(p), name)));
                    assert(stands_under(p, id, folded(rules_of(p), name)));
                    assert(wins(p, other, folded(rules_of(p), name)));
                }
            }
        }
        let mut at: usize = 0;
        let mut going = true;
        while going && at < entries.len()
            invariant
                at <= entries@.len(),
                entries@ == before,
                m == self.objects@,
                name == object.node.name@,
                forall|a: int| 0 <= a < before.len() ==> m.contains_key(#[trigger] before[a]),
                forall|a: int| 0 <= a < at ==> text_less(m[#[trigger] before[a]].node.name@, name),
                !going ==> at < before.len() && !text_less(m[before[at as int]].node.name@, name),
            decreases entries@.len() - at, going as int,
        {
            let other = entries[at];
            assert(m.contains_key(before[at as int]));
            match self.objects.get(other) {
                Some(found) => {
                    if comes_before(found.node.name.as_str(), object.node.name.as_str()) {
                        at = at + 1;
                    } else {
                        going = false;
                    }
                },
                None => {
                    at = at + 1;
                },
            }
        }
        proof {
            assert forall|a: int| at <= a < before.len() implies text_less(
                name,
                m[#[trigger] before[a]].node.name@,
            ) by {
                let first = m[before[at as int]].node.name@;
                lemma_text_order(first, name);
                if a > at {
                    assert(text_less(
                        m[before[at as int]].node.name@,
                        m[before[a]].node.name@,
                    ));
                    lemma_text_transitive(name, first, m[before[a]].node.name@);
                }
            }
        }
        entries.insert(at, id);
        proof {
            let after = entries@;
            assert(after == before.insert(at as int, id));
            assert forall|a: int, b: int| 0 <= a < b < after.len() implies text_less(
                m[#[trigger] after[a]].node.name@,
                m[#[trigger] after[b]].node.name@,
            ) by {
                let x = if a < at {
                    a
                } else {
                    a - 1
                };
                let y = if b < at {
                    b
                } else {
                    b - 1
                };
                if a != at {
                    assert(after[a] == before[x]);
                }
                if b != at {
                    assert(after[b] == before[y]);
                }
            }
            assert forall|k: Id| #[trigger] after.contains(k) <==> before.contains(k) || k == id by {
                if before.contains(k) {
                    let i = choose|i: int| 0 <= i < before.len() && before[i] == k;
                    if i < at {
                        assert(after[i] == k);
                    } else {
                        assert(after[i + 1] == k);
                    }
                }
                assert(after[at as int] == id);
                if after.contains(k) {
                    let i = choose|i: int| 0 <= i < after.len() && after[i] == k;
                    if i < at {
                        assert(before[i] == k);
                    } else if i > at {
                        assert(before[i - 1] == k);
                    }
                }
            }
        }
    }

    /// Projects the local entries over the provider's nodes.
    fn project(&self, remote: Vec<Node>) -> (listing: NamespaceListing)
        requires
            self.inv(),
        ensures
            projects(self.over(), remote@, listing),
    {
        let ghost p = self.over();
        let mut nodes: Vec<Node> = Vec::new();
        let mut conflicts: Vec<NamespaceCollision> = Vec::new();
        let mut i: usize = 0;
        proof {
            assert(remote@.subrange(0, 0) =~= Seq::<Node>::empty());
        }
        while i < remote.len()
            invariant
                i <= remote@.len(),
                self.inv(),
                p == self.over(),
                nodes@.len() == shown_nodes(p, remote@.subrange(0, i as int)).len(),
                forall|j: int|
                    0 <= j < nodes@.len() ==> (#[trigger] nodes@[j])@ == shown_nodes(
                        p,
                        remote@.subrange(0, i as int),
                    )[j],
                conflicts@.len() == blocked_nodes(p, remote@.subrange(0, i as int)).len(),
                forall|j: int|
                    0 <= j < conflicts@.len() ==> (#[trigger] conflicts@[j]).remote
                        == blocked_nodes(p, remote@.subrange(0, i as int))[j] && wins(
                        p,
                        conflicts@[j].local,
                        key_of(p, blocked_nodes(p, remote@.subrange(0, i as int))[j]@),
                    ),
            decreases remote@.len() - i,
        {
            proof {
                let more = remote@.subrange(0, i + 1);
                assert(more.drop_last() =~= remote@.subrange(0, i as int));
                assert(more.last() == remote@[i as int]);
            }
            let node = remote[i].clone();
            if !self.item_hidden(node.id.as_str()) {
                let key = fold(self.names, &node.name);
                match self.winner(&key) {
                    Some(local) => {
                        proof {
                            assert(key@ == key_of(p, node@));
                            assert(is_blocked(p, node@));
                        }
                        conflicts.push(NamespaceCollision { local, remote: node });
                    },
                    None => {
                        let mut node = node;
                        let identity = self.identity(&node.id);
                        node.id = identity;
                        node.parent_id = Some(self.parent.to_string());
                        nodes.push(node);
                    },
                }
            }
            i = i + 1;
        }
        proof {
            assert(remote@.subrange(0, i as int) =~= remote@);
        }
        let entries = self.entries();
        let ghost shown = shown_nodes(p, remote@);
        let mut k: usize = 0;
        while k < entries.len()
            invariant
                k <= entries@.len(),
                self.inv(),
                p == self.over(),
                local_entries(p, entries@),
                nodes@.len() == shown.len() + k,
                forall|j: int| 0 <= j < shown.len() ==> (#[trigger] nodes@[j])@ == shown[j],
                forall|j: int|
                    0 <= j < k ==> #[trigger] nodes@[shown.len() + j] == p.objects[entries@[j]].node,
            decreases entries@.len() - k,
        {
            proof {
                assert(entries@.contains(entries@[k as int]));
                assert(member(p, entries@[k as int]));
            }
            if let Some(object) = self.objects.get(entries[k]) {
                nodes.push(object.node.clone());
            }
            k = k + 1;
        }
        let listing = NamespaceListing { nodes, conflicts };
        proof {
            assert(local_entries(p, entries@));
        }
        listing
    }
}

/// The rules of a scope: those of its first object.
fn find_rules(objects: &Table<NamespaceObject>, ids: &Vec<Id>, scope: &Scope) -> (names: NamespaceNames)
    requires
        increasing(ids@),
        forall|id: Id| #[trigger] ids@.contains(id) <==> objects@.contains_key(id),
        forall|j: int| 0 <= j < ids@.len() ==> objects@.contains_key(#[trigger] ids@[j]),
    ensures
        names == (match first_where(objects@, in_scope(scope@)) {
            Some(object) => object.names,
            None => NamespaceNames::Insensitive,
        }),
{
    let ghost wanted = in_scope(scope@);
    let mut i: usize = 0;
    while i < ids.len()
        invariant
            i <= ids@.len(),
            increasing(ids@),
            wanted == in_scope(scope@),
            forall|id: Id| #[trigger] ids@.contains(id) <==> objects@.contains_key(id),
            forall|j: int| 0 <= j < ids@.len() ==> objects@.contains_key(#[trigger] ids@[j]),
            forall|j: int| 0 <= j < i ==> !wanted(objects@[#[trigger] ids@[j]]),
        decreases ids@.len() - i,
    {
        if let Some(object) = objects.get(ids[i]) {
            if object.scope.same(scope) {
                proof {
                    let id = ids@[i as int];
                    assert forall|other: Id| #[trigger]
                        objects@.contains_key(other) && wanted(objects@[other]) implies id
                        <= other by {
                        assert(ids@.contains(other));
                        let j = choose|j: int| 0 <= j < ids@.len() && ids@[j] == other;
                        assert(ids@[j] == other);
                    }
                    lemma_first(objects@, wanted, id);
                }
                return object.names;
            }
        }
        i = i + 1;
    }
    proof {
        assert forall|id: Id| !is_first(objects@, wanted, id) by {
            if is_first(objects@, wanted, id) {
                assert(ids@.contains(id));
                let j = choose|j: int| 0 <= j < ids@.len() && ids@[j] == id;
                assert(!wanted(objects@[ids@[j]]));
            }
        }
    }
    NamespaceNames::Insensitive
}

/// Projects the objects over a provider's listing, with routes that are already known.
pub fn project_retained_namespace(
    objects: &Table<NamespaceObject>,
    retained: &RetainedAncestors,
    scope: &Scope,
    parent: &str,
    remote: Vec<Node>,
) -> (result: Result<NamespaceListing, JournalError>)
    ensures
        ({
            let p = ProjectionView {
                objects: objects@,
                kept: retained@,
                scope: scope@,
                parent: parent@,
            };
            match result {
                Ok(listing) => !contradictory(p) && projects(p, remote@, listing),
                Err(error) => contradictory(p) && error == JournalError::Corrupt,
            }
        }),
{
    let ids = objects.ids();
    let names = find_rules(objects, &ids, scope);
    let projector = Projector { objects, kept: retained, scope, parent, ids, names };
    if projector.is_contradictory() {
        return Err(JournalError::Corrupt);
    }
    Ok(projector.project(remote))
}

/// Projects the objects over a provider's listing. No I/O is performed, so navigation
/// need not wait for the spool.
pub fn project_namespace(
    objects: &Table<NamespaceObject>,
    scope: &Scope,
    parent: &str,
    remote: Vec<Node>,
) -> (result: Result<NamespaceListing, JournalError>)
    ensures
        match result {
            Ok(listing) => !contradictory(projection(objects@, scope@, parent@)) && projects(
                projection(objects@, scope@, parent@),
                remote@,
                listing,
            ),
            Err(error) => contradictory(projection(objects@, scope@, parent@)) && error
                == JournalError::Corrupt,
        },
{
    let retained = RetainedAncestors::new(objects);
    project_retained_namespace(objects, &retained, scope, parent, remote)
}

impl UploadJournal {
    /// Projects the journal's objects over a provider's listing.
    pub fn namespace_overlay(&self, scope: &Scope, parent: &str, remote: Vec<Node>) -> (result: Result<
        NamespaceListing,
        JournalError,
    >)
        ensures
            match result {
                Ok(listing) => !contradictory(projection(self@.objects, scope@, parent@))
                    && projects(projection(self@.objects, scope@, parent@), remote@, listing),
                Err(error) => contradictory(projection(self@.objects, scope@, parent@)) && error
                    == JournalError::Corrupt,
            },
    {
        project_namespace(&self.objects, scope, parent, remote)
    }

    /// The identities of the local objects, in order.
    pub fn namespace_objects(&self) -> (ids: Vec<Id>)
        ensures
            increasing(ids@),
            forall|id: Id| #[trigger] ids@.contains(id) <==> self@.objects.contains_key(id),
    {
        self.objects.ids()
    }
}

/// A presented provider node never shares a folded name with a local entry, and no
/// provider item that a local object stands for is presented.
pub proof fn no_name_is_shown_twice(p: ProjectionView, remote: Seq<Node>, i: int)
    requires
        0 <= i < shown_nodes(p, remote).len(),
    ensures
        !is_blocked(p, shown_nodes(p, remote)[i]),
        exists|k: int|
            0 <= k < remote.len() && !is_hidden(p, (#[trigger] remote[k])@.id) && shown_nodes(
                p,
                remote,
            )[i] == shown_node(p, remote[k]@),
    decreases remote.len(),
{
    let before = shown_nodes(p, remote.drop_last());
    if i < before.len() {
        no_name_is_shown_twice(p, remote.drop_last(), i);
        let k = choose|k: int|
            0 <= k < remote.drop_last().len() && !is_hidden(p, (#[trigger] remote.drop_last()[k])@.id)
                && shown_nodes(p, remote.drop_last())[i] == shown_node(p, remote.drop_last()[k]@);
        assert(remote[k] == remote.drop_last()[k]);
    } else {
        let last = remote.len() - 1;
        assert(remote[last] == remote.last());
        assert(key_of(p, shown_node(p, remote.last()@)) == key_of(p, remote.last()@));
    }
}

/// Every provider node is presented, reported as a conflict, or stood for by a local
/// object; none is lost.
pub proof fn no_node_is_lost(p: ProjectionView, remote: Seq<Node>, k: int)
    requires
        0 <= k < remote.len(),
    ensures
        is_hidden(p, remote[k]@.id) || blocked_nodes(p, remote).contains(remote[k]) || shown_nodes(
            p,
            remote,
        ).contains(shown_node(p, remote[k]@)),
    decreases remote.len(),
{
    let shown = shown_nodes(p, remote.drop_last());
    let blocked = blocked_nodes(p, remote.drop_last());
    if k == remote.len() - 1 {
        assert(remote[k] == remote.last());
        if !is_hidden(p, remote[k]@.id) {
            if is_blocked(p, remote[k]@) {
                assert(blocked_nodes(p, remote)[blocked.len() as int] == remote[k]);
            } else {
                assert(shown_nodes(p, remote)[shown.len() as int] == shown_node(p, remote[k]@));
            }
        }
    } else {
        assert(remote.drop_last()[k] == remote[k]);
        no_node_is_lost(p, remote.drop_last(), k);
        if blocked.contains(remote[k]) {
            let j = choose|j: int| 0 <= j < blocked.len() && blocked[j] == remote[k];
            assert(blocked_nodes(p, remote)[j] == remote[k]);
        }
        if shown.contains(shown_node(p, remote[k]@)) {
            let j = choose|j: int| 0 <= j < shown.len() && shown[j] == shown_node(p, remote[k]@);
            assert(shown_nodes(p, remote)[j] == shown_node(p, remote[k]@));
        }
    }
}

} // verus!
