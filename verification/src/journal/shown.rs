//! What a presented directory promises: pending creations, renames and removals are shown
//! over the provider's listing, and nothing of the provider is lost or shown twice.
use crate::journal::ancestry::folded;
use crate::journal::namespace::consistent;
use crate::journal::overlay::{
    aliases, blocked_nodes, contradictory, has_entry, hides, is_blocked, is_hidden, key_of,
    last_alias, local_entries, member, no_name_is_shown_twice, no_node_is_lost, projection,
    projects, rules_of, shown_identity, shown_node, shown_nodes, stands_under, wins,
    NamespaceListing, ProjectionView,
};
use crate::journal::records::{JournalView, NamespaceNames};
use crate::journal::unlinked::file_unlinked;
use crate::model::{Id, Node, NodeView};
use crate::text::lowercase;
use vstd::prelude::*;

verus! {

/// Two names are one by the rules of a scope.
pub open spec fn one_name(names: NamespaceNames, a: Seq<char>, b: Seq<char>) -> bool {
    match names {
        NamespaceNames::Sensitive => a == b,
        NamespaceNames::Insensitive => lowercase(a) == lowercase(b),
    }
}

/// A local object of the scope owns this provider item and does not merely follow it,
/// whether or not it still has a name.
pub open spec fn stands_for(p: ProjectionView, id: Id, item: Seq<char>) -> bool {
    &&& p.objects.contains_key(id)
    &&& p.objects[id].scope@ == p.scope
    &&& !p.objects[id].follows_remote
    &&& p.objects[id].remote_owned
    &&& p.objects[id].remote is Some
    &&& p.objects[id].remote->0.id@ == item
}

/// A local object of the scope has a name of its own in the directory.
pub open spec fn named_here(p: ProjectionView, id: Id) -> bool {
    &&& p.objects.contains_key(id)
    &&& p.objects[id].scope@ == p.scope
    &&& !p.objects[id].unlinked
    &&& p.objects[id].node.parent_id is Some
    &&& p.objects[id].node.parent_id->0@ == p.parent
}

/// A presented node is this node of the provider, in the directory, under its own identity
/// or under the local identity of an object that follows it.
pub open spec fn comes_from(p: ProjectionView, node: NodeView, remote: NodeView) -> bool {
    &&& node == (NodeView { id: node.id, parent_id: Some(p.parent), ..remote })
    &&& node.id == remote.id || exists|id: Id| #[trigger]
        p.objects.contains_key(id) && p.objects[id].scope@ == p.scope
            && p.objects[id].follows_remote && p.objects[id].remote is Some
            && p.objects[id].remote->0.id@ == remote.id && p.objects[id].node.id@ == node.id
    &&& forall|id: Id| !(#[trigger] stands_for(p, id, remote.id))
    &&& forall|id: Id| #[trigger]
        named_here(p, id) && !p.objects[id].follows_remote ==> !one_name(
            p.objects[id].names,
            p.objects[id].node.name@,
            remote.name,
        )
}

/// A presented node is the entry of this local object.
pub open spec fn is_entry_of(p: ProjectionView, node: Node, id: Id) -> bool {
    named_here(p, id) && node == p.objects[id].node
}

/// All objects of a scope compare names by one rule.
proof fn lemma_one_rule(p: ProjectionView, id: Id)
    requires
        !contradictory(p),
        p.objects.contains_key(id),
        p.objects[id].scope@ == p.scope,
    ensures
        p.objects[id].names == rules_of(p),
        forall|a: Seq<char>, b: Seq<char>|
            one_name(p.objects[id].names, a, b) <==> #[trigger] folded(rules_of(p), a)
                == #[trigger] folded(rules_of(p), b),
{
    assert(member(p, id));
}

/// Some object with a name holds the slot wherever one stands there.
proof fn lemma_somebody_wins(p: ProjectionView, id: Id, key: Seq<char>)
    requires
        stands_under(p, id, key),
    ensures
        exists|winner: Id| wins(p, winner, key),
    decreases u128::MAX - id,
{
    if !wins(p, id, key) {
        let other = choose|other: Id| stands_under(p, other, key) && other > id;
        assert(stands_under(p, other, key) && other > id);
        lemma_somebody_wins(p, other, key);
    }
}

/// A presented provider node is one of the provider's.
proof fn lemma_origin(p: ProjectionView, remote: Seq<Node>, i: int)
    requires
        !contradictory(p),
        0 <= i < shown_nodes(p, remote).len(),
    ensures
        exists|k: int|
            0 <= k < remote.len() && comes_from(p, shown_nodes(p, remote)[i], (#[trigger] remote[k])@),
{
    no_name_is_shown_twice(p, remote, i);
    let node = shown_nodes(p, remote)[i];
    let k = choose|k: int|
        0 <= k < remote.len() && !is_hidden(p, (#[trigger] remote[k])@.id) && node == shown_node(
            p,
            remote[k]@,
        );
    let item = remote[k]@.id;
    assert(node.name == remote[k]@.name);
    assert forall|id: Id| !(#[trigger] stands_for(p, id, item)) by {
        if stands_for(p, id, item) {
            assert(hides(p, id, item));
        }
    }
    assert forall|id: Id| #[trigger] named_here(p, id) && !p.objects[id].follows_remote implies
        !one_name(p.objects[id].names, p.objects[id].node.name@, remote[k]@.name) by {
        lemma_one_rule(p, id);
        if one_name(p.objects[id].names, p.objects[id].node.name@, remote[k]@.name) {
            let key = key_of(p, node);
            assert(folded(rules_of(p), p.objects[id].node.name@) == key);
            assert(stands_under(p, id, key));
            lemma_somebody_wins(p, id, key);
            assert(is_blocked(p, node));
        }
    }
    if node.id != item {
        let id = choose|id: Id| last_alias(p, id, item);
        assert(last_alias(p, id, item));
        assert(aliases(p, id, item));
        assert(p.objects.contains_key(id));
    }
}

/// Every presented node is a node of the provider that no local object stands for and
/// whose name no local entry has, or the entry of a local object.
pub proof fn listed_nodes_have_an_origin(
    p: ProjectionView,
    remote: Seq<Node>,
    listing: NamespaceListing,
    i: int,
)
    requires
        !contradictory(p),
        projects(p, remote, listing),
        0 <= i < listing.nodes@.len(),
    ensures
        (exists|k: int|
            0 <= k < remote.len() && comes_from(p, listing.nodes@[i]@, (#[trigger] remote[k])@)) || (
        exists|id: Id| #[trigger] is_entry_of(p, listing.nodes@[i], id)),
{
    let shown = shown_nodes(p, remote);
    let entries = choose|entries: Seq<Id>| #[trigger]
        local_entries(p, entries) && {
            &&& listing.nodes@.len() == shown.len() + entries.len()
            &&& forall|i: int| 0 <= i < shown.len() ==> (#[trigger] listing.nodes@[i])@ == shown[i]
            &&& forall|i: int|
                0 <= i < entries.len() ==> #[trigger] listing.nodes@[shown.len() + i]
                    == p.objects[entries[i]].node
        };
    if i < shown.len() {
        lemma_origin(p, remote, i);
        assert(listing.nodes@[i]@ == shown[i]);
    } else {
        let j = i - shown.len();
        assert(listing.nodes@[shown.len() + j] == p.objects[entries[j]].node);
        assert(entries.contains(entries[j]));
        assert(has_entry(p, entries[j]));
        assert(is_entry_of(p, listing.nodes@[i], entries[j]));
    }
}

/// A provider item that a local object owns is never presented as the provider lists it,
/// also when the object has lost its name: a file that was just removed does not come back
/// while the provider still has it.
pub proof fn owned_items_are_not_listed(
    p: ProjectionView,
    remote: Seq<Node>,
    listing: NamespaceListing,
    id: Id,
    item: Seq<char>,
)
    requires
        !contradictory(p),
        projects(p, remote, listing),
        stands_for(p, id, item),
    ensures
        forall|i: int, k: int|
            0 <= i < listing.nodes@.len() && 0 <= k < remote.len() && (#[trigger] remote[k]).id@
                == item ==> !comes_from(p, (#[trigger] listing.nodes@[i])@, remote[k]@),
        // Nothing is presented under that identity but what has it for its local one.
        (forall|other: Id| #[trigger]
            p.objects.contains_key(other) && p.objects[other].scope@ == p.scope
                && p.objects[other].node.id@ == item ==> other == id && p.objects[id].unlinked)
            ==> forall|i: int|
            0 <= i < listing.nodes@.len() ==> (#[trigger] listing.nodes@[i]).id@ != item,
{
    if forall|other: Id| #[trigger]
        p.objects.contains_key(other) && p.objects[other].scope@ == p.scope
            && p.objects[other].node.id@ == item ==> other == id && p.objects[id].unlinked {
        assert forall|i: int| 0 <= i < listing.nodes@.len() implies (#[trigger] listing.nodes@[i]).id@
            != item by {
            listed_nodes_have_an_origin(p, remote, listing, i);
            let node = listing.nodes@[i];
            if node.id@ == item {
                if exists|other: Id| #[trigger] is_entry_of(p, node, other) {
                    let other = choose|other: Id| #[trigger] is_entry_of(p, node, other);
                    assert(p.objects.contains_key(other));
                } else {
                    let k = choose|k: int|
                        0 <= k < remote.len() && comes_from(p, node@, (#[trigger] remote[k])@);
                    if node@.id != remote[k]@.id {
                        let other = choose|other: Id| #[trigger]
                            p.objects.contains_key(other) && p.objects[other].scope@ == p.scope
                                && p.objects[other].follows_remote && p.objects[other].remote is Some
                                && p.objects[other].remote->0.id@ == remote[k]@.id
                                && p.objects[other].node.id@ == node@.id;
                        assert(p.objects.contains_key(other));
                    } else {
                        assert(stands_for(p, id, remote[k]@.id));
                    }
                }
            }
        }
    }
}

/// A provider node that no local object knows and whose name no local entry has is
/// presented, with everything that the provider says of it.
pub proof fn unknown_nodes_are_listed(
    p: ProjectionView,
    remote: Seq<Node>,
    listing: NamespaceListing,
    k: int,
)
    requires
        !contradictory(p),
        projects(p, remote, listing),
        0 <= k < remote.len(),
        forall|id: Id| #[trigger]
            p.objects.contains_key(id) && p.objects[id].scope@ == p.scope && p.objects[id].remote
                is Some ==> p.objects[id].remote->0.id@ != remote[k].id@,
        forall|id: Id| #[trigger]
            named_here(p, id) ==> !one_name(
                p.objects[id].names,
                p.objects[id].node.name@,
                remote[k].name@,
            ),
    ensures
        exists|i: int|
            0 <= i < listing.nodes@.len() && (#[trigger] listing.nodes@[i])@ == (NodeView {
                parent_id: Some(p.parent),
                ..remote[k]@
            }),
{
    no_node_is_lost(p, remote, k);
    let node = remote[k]@;
    assert forall|id: Id| !(#[trigger] hides(p, id, node.id)) by {
        if hides(p, id, node.id) {
            assert(p.objects.contains_key(id));
        }
    }
    assert forall|id: Id| !wins(p, id, key_of(p, node)) by {
        if wins(p, id, key_of(p, node)) {
            assert(named_here(p, id));
            lemma_one_rule(p, id);
            assert(folded(rules_of(p), p.objects[id].node.name@) == folded(
                rules_of(p),
                node.name,
            ));
        }
    }
    assert(shown_identity(p, node.id) == node.id) by {
        if exists|id: Id| last_alias(p, id, node.id) {
            let id = choose|id: Id| last_alias(p, id, node.id);
            assert(p.objects.contains_key(id));
        }
    }
    let shown = shown_nodes(p, remote);
    if blocked_nodes(p, remote).contains(remote[k]) {
        lemma_blocked(p, remote, remote[k]);
    }
    let i = choose|i: int| 0 <= i < shown.len() && shown[i] == shown_node(p, node);
    assert(listing.nodes@[i]@ == shown[i]);
}

/// A node that is reported stands where a local entry is.
proof fn lemma_blocked(p: ProjectionView, remote: Seq<Node>, node: Node)
    requires
        blocked_nodes(p, remote).contains(node),
    ensures
        !is_hidden(p, node.id@),
        is_blocked(p, node@),
        remote.contains(node),
    decreases remote.len(),
{
    let before = blocked_nodes(p, remote.drop_last());
    let all = blocked_nodes(p, remote);
    let j = choose|j: int| 0 <= j < all.len() && all[j] == node;
    if remote.len() > 0 {
        if j < before.len() {
            assert(before[j] == node);
            lemma_blocked(p, remote.drop_last(), node);
            let k = choose|k: int| 0 <= k < remote.drop_last().len() && remote.drop_last()[k] == node;
            assert(remote[k] == node);
        } else {
            assert(remote[remote.len() - 1] == node);
        }
    }
}

/// A local file or folder is presented under its own name as soon as it has one in the
/// directory: a creation or a rename is shown before the provider knows of it.
pub proof fn local_names_are_listed(
    p: ProjectionView,
    remote: Seq<Node>,
    listing: NamespaceListing,
    id: Id,
)
    requires
        !contradictory(p),
        projects(p, remote, listing),
        named_here(p, id),
        !p.objects[id].follows_remote,
        forall|other: Id| #[trigger]
            named_here(p, other) && other != id ==> !one_name(
                p.objects[other].names,
                p.objects[other].node.name@,
                p.objects[id].node.name@,
            ),
    ensures
        listing.nodes@.contains(p.objects[id].node),
{
    let shown = shown_nodes(p, remote);
    let entries = choose|entries: Seq<Id>| #[trigger]
        local_entries(p, entries) && {
            &&& listing.nodes@.len() == shown.len() + entries.len()
            &&& forall|i: int| 0 <= i < shown.len() ==> (#[trigger] listing.nodes@[i])@ == shown[i]
            &&& forall|i: int|
                0 <= i < entries.len() ==> #[trigger] listing.nodes@[shown.len() + i]
                    == p.objects[entries[i]].node
        };
    let key = folded(rules_of(p), p.objects[id].node.name@);
    assert(stands_under(p, id, key));
    assert forall|other: Id| #[trigger] stands_under(p, other, key) implies other <= id by {
        if other != id {
            assert(named_here(p, other));
            lemma_one_rule(p, other);
            assert(folded(rules_of(p), p.objects[other].node.name@) == folded(
                rules_of(p),
                p.objects[id].node.name@,
            ));
        }
    }
    assert(has_entry(p, id));
    assert(entries.contains(id));
    let j = choose|j: int| 0 <= j < entries.len() && entries[j] == id;
    assert(listing.nodes@[shown.len() + j] == p.objects[entries[j]].node);
}

/// Every reported conflict is a provider node that no local object stands for, and whose
/// name a local entry has. None of them is silently dropped.
pub proof fn conflicts_are_reported(
    p: ProjectionView,
    remote: Seq<Node>,
    listing: NamespaceListing,
)
    requires
        !contradictory(p),
        projects(p, remote, listing),
    ensures
        forall|i: int|
            0 <= i < listing.conflicts@.len() ==> {
                let found = #[trigger] listing.conflicts@[i];
                &&& remote.contains(found.remote)
                &&& named_here(p, found.local)
                &&& one_name(
                    p.objects[found.local].names,
                    p.objects[found.local].node.name@,
                    found.remote.name@,
                )
                &&& forall|id: Id| !(#[trigger] stands_for(p, id, found.remote.id@))
            },
        forall|k: int, id: Id|
            0 <= k < remote.len() && #[trigger] named_here(p, id) && !p.objects[id].follows_remote
                && one_name(
                p.objects[id].names,
                p.objects[id].node.name@,
                (#[trigger] remote[k]).name@,
            ) && (forall|other: Id| #[trigger]
                p.objects.contains_key(other) && p.objects[other].scope@ == p.scope
                    && p.objects[other].remote is Some ==> p.objects[other].remote->0.id@
                    != remote[k].id@) ==> exists|i: int|
                0 <= i < listing.conflicts@.len() && (#[trigger] listing.conflicts@[i]).remote
                    == remote[k],
{
    let blocked = blocked_nodes(p, remote);
    assert forall|i: int| 0 <= i < listing.conflicts@.len() implies {
        let found = #[trigger] listing.conflicts@[i];
        &&& remote.contains(found.remote)
        &&& named_here(p, found.local)
        &&& one_name(
            p.objects[found.local].names,
            p.objects[found.local].node.name@,
            found.remote.name@,
        )
        &&& forall|id: Id| !(#[trigger] stands_for(p, id, found.remote.id@))
    } by {
        let found = listing.conflicts@[i];
        assert(found.remote == blocked[i]);
        lemma_blocked(p, remote, found.remote);
        assert(named_here(p, found.local));
        lemma_one_rule(p, found.local);
        assert(folded(rules_of(p), p.objects[found.local].node.name@) == folded(
            rules_of(p),
            found.remote.name@,
        ));
        assert forall|id: Id| !(#[trigger] stands_for(p, id, found.remote.id@)) by {
            if stands_for(p, id, found.remote.id@) {
                assert(hides(p, id, found.remote.id@));
            }
        }
    }
    assert forall|k: int, id: Id|
        0 <= k < remote.len() && #[trigger] named_here(p, id) && !p.objects[id].follows_remote
            && one_name(
            p.objects[id].names,
            p.objects[id].node.name@,
            (#[trigger] remote[k]).name@,
        ) && (forall|other: Id| #[trigger]
            p.objects.contains_key(other) && p.objects[other].scope@ == p.scope
                && p.objects[other].remote is Some ==> p.objects[other].remote->0.id@
                != remote[k].id@) implies exists|i: int|
        0 <= i < listing.conflicts@.len() && (#[trigger] listing.conflicts@[i]).remote
            == remote[k] by {
        let node = remote[k]@;
        no_node_is_lost(p, remote, k);
        lemma_one_rule(p, id);
        assert(folded(rules_of(p), p.objects[id].node.name@) == folded(rules_of(p), node.name));
        let key = key_of(p, node);
        assert(stands_under(p, id, key));
        lemma_somebody_wins(p, id, key);
        assert(is_blocked(p, node));
        assert forall|other: Id| !(#[trigger] hides(p, other, node.id)) by {
            if hides(p, other, node.id) {
                assert(p.objects.contains_key(other));
            }
        }
        if !blocked.contains(remote[k]) {
            let shown = shown_nodes(p, remote);
            let j = choose|j: int| 0 <= j < shown.len() && shown[j] == shown_node(p, node);
            no_name_is_shown_twice(p, remote, j);
            assert(key_of(p, shown_node(p, node)) == key);
        }
        let i = choose|i: int| 0 <= i < blocked.len() && blocked[i] == remote[k];
        assert(listing.conflicts@[i].remote == blocked[i]);
    }
}

/// Once a file is removed, no directory shows it: neither under its own name nor as the
/// provider still lists it.
pub proof fn removed_files_are_not_listed(
    journal: JournalView,
    operation: Id,
    id: Id,
    revision: u64,
    preserve: bool,
    valid: bool,
    parent: Seq<char>,
    remote: Seq<Node>,
    listing: NamespaceListing,
)
    requires
        consistent(journal),
        file_unlinked(journal, operation, id, revision, preserve, valid) is Ok,
        journal.objects[id].remote_owned,
        journal.objects[id].remote is Some,
        // The file was first seen at the provider, whose identity it has.
        journal.objects[id].node.id@ == journal.objects[id].remote->0.id@,
        ({
            let after = file_unlinked(journal, operation, id, revision, preserve, valid)->Ok_0.0;
            let p = projection(after.objects, journal.objects[id].scope@, parent);
            !contradictory(p) && projects(p, remote, listing)
        }),
    ensures
        forall|i: int|
            0 <= i < listing.nodes@.len() ==> (#[trigger] listing.nodes@[i]).id@
                != journal.objects[id].remote->0.id@,
{
    let after = file_unlinked(journal, operation, id, revision, preserve, valid)->Ok_0.0;
    let object = journal.objects[id];
    let p = projection(after.objects, object.scope@, parent);
    let item = object.remote->0.id@;
    assert(object.id == id);
    assert(after.objects == journal.objects.insert(id, after.objects[id]));
    assert(stands_for(p, id, item));
    assert forall|other: Id| #[trigger]
        p.objects.contains_key(other) && p.objects[other].scope@ == p.scope
            && p.objects[other].node.id@ == item implies other == id && p.objects[id].unlinked by {
        if other != id {
            assert(journal.objects.contains_key(id));
            assert(journal.objects.contains_key(other));
        }
    }
    owned_items_are_not_listed(p, remote, listing, id, item);
}

/// Two names are one exactly where their compared forms are: as they are where case
/// counts, and in lower case where it does not.
pub proof fn names_are_compared_by_the_rules(names: NamespaceNames, a: Seq<char>, b: Seq<char>)
    ensures
        one_name(names, a, b) <==> folded(names, a) == folded(names, b),
        folded(NamespaceNames::Sensitive, a) == a,
        folded(NamespaceNames::Insensitive, a) == lowercase(a),
{
}

/// A directory is refused only where objects of its scope disagree about how names are compared,
/// or where one follows the provider without an item of its own to follow.
pub proof fn only_contradictions_are_refused(p: ProjectionView, id: Id)
    ensures
        (forall|other: Id| #[trigger]
            p.objects.contains_key(other) && p.objects[other].scope@ == p.scope ==> {
                &&& p.objects[other].names == rules_of(p)
                &&& p.objects[other].follows_remote ==> p.objects[other].remote_owned
                    && p.objects[other].remote is Some
            }) ==> !contradictory(p),
        p.objects.contains_key(id) && p.objects[id].scope@ == p.scope && p.objects[id].names
            != rules_of(p) ==> contradictory(p),
        p.objects.contains_key(id) && p.objects[id].scope@ == p.scope
            && p.objects[id].follows_remote && !p.kept.objects.contains(id) && (
        !p.objects[id].remote_owned || p.objects[id].remote is None) ==> contradictory(p),
{
    if p.objects.contains_key(id) && p.objects[id].scope@ == p.scope {
        assert(member(p, id));
    }
}

/// A node of the provider is listed as it is, in the directory that is shown, under the local
/// identity that stands for it.
pub proof fn provider_nodes_are_listed_as_they_are(p: ProjectionView, node: NodeView)
    ensures
        ({
            let shown = shown_node(p, node);
            &&& shown.name == node.name && shown.kind == node.kind && shown.size == node.size
            &&& shown.modified_unix == node.modified_unix && shown.etag == node.etag
            &&& shown.content_version == node.content_version && shown.target == node.target
            &&& shown.parent_id == Some(p.parent)
            &&& (forall|id: Id| !aliases(p, id, node.id)) ==> shown.id == node.id
        }),
{
    if forall|id: Id| !aliases(p, id, node.id) {
        assert(forall|id: Id| !last_alias(p, id, node.id));
    }
}

} // verus!
