//! What the collections of a mount leave: whole passes overlook nothing, and the way up from
//! a view is what its refusals speak of.
use crate::filesystem::residency::{
    climb, collected, collections_spare_what_is_referred_to, given_back, leased, lemma_lined_up,
    lemma_looked_at, lemma_same_shape, lined, lined_but, lined_up, place_refusal, placed,
    placing_keeps_the_tree_sound, reaches, reclaimable, reclaimed,
    reclaiming_keeps_the_tree_sound, rooted, seated, sound, Residence, ResidencyView, ViewError,
    ROOT,
};
use crate::filesystem::views::{agrees, shown, NamespaceState, ResolvedView};
use crate::model::{Id, NodeKind};
use vstd::prelude::*;

verus! {

/// What is left of a view by collections: what refers to it from outside is the same, and
/// no view came below it.
pub open spec fn unharmed(before: Residence, after: Residence) -> bool {
    &&& after.parent == before.parent
    &&& after.directory == before.directory
    &&& after.generation == before.generation
    &&& after.kernel == before.kernel
    &&& after.quarantine == before.quarantine
    &&& after.leases == before.leases
    &&& after.children <= before.children
}

/// Every view of the second index was in the first one, and collections did it no harm.
pub open spec fn survivors(before: Map<Id, Residence>, after: Map<Id, Residence>) -> bool {
    forall|id: Id| #[trigger]
        after.contains_key(id) ==> before.contains_key(id) && unharmed(before[id], after[id])
}

/// The state after the first candidate was looked at.
pub open spec fn looked_at(state: ResidencyView) -> ResidencyView {
    let (inode, generation) = state.candidates[0];
    let popped = ResidencyView { candidates: state.candidates.drop_first(), ..state };
    if !state.entries.contains_key(inode as Id) || state.entries[inode as Id].generation
        != generation {
        popped
    } else {
        let seen = ResidencyView {
            entries: state.entries.insert(
                inode as Id,
                Residence { queued: false, ..state.entries[inode as Id] },
            ),
            ..popped
        };
        if reclaimable(inode, state.entries[inode as Id]) {
            reclaimed(seen, inode)
        } else if state.entries[inode as Id].kernel == 0 {
            lined_up(seen, inode)
        } else {
            seen
        }
    }
}

/// The first candidate is reclaimed.
pub open spec fn reclaims_first(state: ResidencyView) -> bool {
    let (inode, generation) = state.candidates[0];
    state.entries.contains_key(inode as Id) && state.entries[inode as Id].generation == generation
        && reclaimable(inode, state.entries[inode as Id])
}

/// One step of a collection.
proof fn lemma_step(state: ResidencyView, unchanged: nat, limit: nat)
    requires
        sound(state.entries),
        lined(state),
        limit > 0,
        unchanged > 0,
        state.candidates.len() > 0,
    ensures
        ({
            let next = looked_at(state);
            let left = if reclaims_first(state) {
                (state.candidates.len() - 1) as nat
            } else {
                (unchanged - 1) as nat
            };
            let rest = collected(next, left, (limit - 1) as nat);
            &&& sound(next.entries)
            &&& lined(next)
            &&& survivors(state.entries, next.entries)
            &&& next.candidates.len() <= state.candidates.len()
            &&& reclaims_first(state) ==> next.candidates == state.candidates.drop_first()
                && next.entries.len() + 1 == state.entries.len()
            &&& !reclaims_first(state) ==> next.entries.dom() == state.entries.dom()
            &&& collected(state, unchanged, limit) == (rest.0, (if reclaims_first(state) {
                seq![state.candidates[0].0]
            } else {
                Seq::empty()
            }) + rest.1)
        }),
{
    let (inode, generation) = state.candidates[0];
    let id = inode as Id;
    let popped = ResidencyView { candidates: state.candidates.drop_first(), ..state };
    lemma_looked_at(state);
    let next = looked_at(state);
    if state.entries.contains_key(id) && state.entries[id].generation == generation {
        let residence = Residence { queued: false, ..state.entries[id] };
        let seen = ResidencyView { entries: state.entries.insert(id, residence), ..popped };
        assert(seen.entries.dom() =~= state.entries.dom());
        lemma_same_shape(state.entries, seen.entries);
        assert(reclaimable(inode, residence) == reclaimable(inode, state.entries[id]));
        if reclaimable(inode, residence) {
            reclaiming_keeps_the_tree_sound(seen, inode);
            let parent = residence.parent as Id;
            assert(seen.entries.contains_key(parent));
            assert(parent != id) by {
                if parent == id {
                    let own = crate::filesystem::residency::children_of(seen.entries, inode);
                    vstd::set_lib::lemma_len_subset(own, seen.entries.dom());
                    assert(own.contains(id));
                    assert(own =~= Set::<Id>::empty());
                }
            }
            let above = crate::filesystem::residency::children_of(
                seen.entries,
                residence.parent,
            );
            vstd::set_lib::lemma_len_subset(above, seen.entries.dom());
            assert(above.contains(id));
            if above.len() == 0 {
                assert(above =~= Set::<Id>::empty());
            }
            assert(next.entries.dom() =~= state.entries.dom().remove(id));
            assert(lined(next));
        } else if residence.kernel == 0 {
            lemma_lined_up(seen, inode);
            assert(next.entries.dom() =~= state.entries.dom());
            lemma_same_shape(seen.entries, next.entries);
        }
    }
    let left = if reclaims_first(state) {
        (state.candidates.len() - 1) as nat
    } else {
        (unchanged - 1) as nat
    };
    let rest = collected(next, left, (limit - 1) as nat);
    if !reclaims_first(state) {
        assert(Seq::<u64>::empty() + rest.1 =~= rest.1);
    }
}

/// Collections leave what refers to a view, and where it stands, as they are.
pub proof fn collections_harm_nothing(state: ResidencyView, unchanged: nat, limit: nat)
    requires
        sound(state.entries),
        lined(state),
    ensures
        sound(collected(state, unchanged, limit).0.entries),
        lined(collected(state, unchanged, limit).0),
        survivors(state.entries, collected(state, unchanged, limit).0.entries),
    decreases limit,
{
    if !(limit == 0 || unchanged == 0 || state.candidates.len() == 0) {
        lemma_step(state, unchanged, limit);
        let left = if reclaims_first(state) {
            (state.candidates.len() - 1) as nat
        } else {
            (unchanged - 1) as nat
        };
        collections_harm_nothing(looked_at(state), left, (limit - 1) as nat);
    }
}

/// The candidates from a place on name no view that could be reclaimed.
pub open spec fn seen_from(state: ResidencyView, place: nat) -> bool {
    forall|i: int|
        place <= i < state.candidates.len() ==> {
            let (inode, generation) = #[trigger] state.candidates[i];
            !(state.entries.contains_key(inode as Id) && state.entries[inode as Id].generation
                == generation && reclaimable(inode, state.entries[inode as Id]))
        }
}

/// Nothing can be reclaimed.
pub open spec fn settled(entries: Map<Id, Residence>) -> bool {
    forall|id: Id| #[trigger] entries.contains_key(id) ==> !reclaimable(id as u64, entries[id])
}

proof fn lemma_nothing_left(state: ResidencyView, unchanged: nat)
    requires
        sound(state.entries),
        lined(state),
        unchanged == 0 || state.candidates.len() == 0,
        seen_from(state, unchanged),
    ensures
        settled(state.entries),
{
    assert forall|id: Id| #[trigger] state.entries.contains_key(id) implies !reclaimable(
        id as u64,
        state.entries[id],
    ) by {
        if reclaimable(id as u64, state.entries[id]) {
            let wanted = (id as u64, state.entries[id].generation);
            assert(state.candidates.contains(wanted));
            let i = choose|i: int| 0 <= i < state.candidates.len() && state.candidates[i] == wanted;
            assert(state.candidates[i] == wanted);
        }
    }
}

/// How many candidates a pass looks at where every one of so many makes it start over.
pub open spec fn longest_pass(candidates: nat) -> nat
    decreases candidates,
{
    if candidates == 0 {
        0
    } else {
        candidates + longest_pass((candidates - 1) as nat)
    }
}

/// The longest pass over so many candidates is half of their square, and half of them.
pub proof fn passes_are_bounded(candidates: nat)
    ensures
        2 * longest_pass(candidates) == candidates * (candidates + 1),
        candidates <= longest_pass(candidates),
    decreases candidates,
{
    if candidates > 0 {
        let less = (candidates - 1) as nat;
        passes_are_bounded(less);
        assert(less * (less + 1) + 2 * candidates == candidates * (candidates + 1))
            by (nonlinear_arith)
            requires
                candidates == less + 1,
        ;
    } else {
        assert(candidates * (candidates + 1) == 0) by (nonlinear_arith)
            requires
                candidates == 0,
        ;
    }
}

proof fn lemma_shorter_pass(fewer: nat, more: nat)
    requires
        fewer <= more,
    ensures
        longest_pass(fewer) <= longest_pass(more),
    decreases more,
{
    if fewer < more {
        lemma_shorter_pass(fewer, (more - 1) as nat);
    }
}

/// A pass that looks at enough candidates leaves nothing that could be reclaimed: whole
/// chains of ancestors go with the last view below them. Each candidate can make the
/// pass start over, and then there is one candidate less.
pub proof fn whole_collections_leave_nothing(state: ResidencyView, unchanged: nat, limit: nat)
    requires
        sound(state.entries),
        lined(state),
        unchanged <= state.candidates.len(),
        seen_from(state, unchanged),
        state.candidates.len() > 0 ==> limit >= unchanged + longest_pass(
            (state.candidates.len() - 1) as nat,
        ),
    ensures
        settled(collected(state, unchanged, limit).0.entries),
    decreases limit,
{
    let length = state.candidates.len();
    if unchanged == 0 || length == 0 {
        lemma_nothing_left(state, unchanged);
    } else {
        lemma_step(state, unchanged, limit);
        let next = looked_at(state);
        let (inode, generation) = state.candidates[0];
        if reclaims_first(state) {
            let left = (length - 1) as nat;
            assert(seen_from(next, left));
            whole_collections_leave_nothing(next, left, (limit - 1) as nat);
        } else {
            let left = (unchanged - 1) as nat;
            assert(seen_from(next, left)) by {
                assert forall|i: int| left <= i < next.candidates.len() implies ({
                    let (k, g) = #[trigger] next.candidates[i];
                    !(next.entries.contains_key(k as Id) && next.entries[k as Id].generation == g
                        && reclaimable(k, next.entries[k as Id]))
                }) by {
                    let (k, g) = next.candidates[i];
                    if i < length - 1 {
                        assert(next.candidates[i] == state.candidates[i + 1]);
                        assert(state.entries.contains_key(k as Id)
                            == next.entries.contains_key(k as Id)) by {
                            assert(state.entries.dom().contains(k as Id)
                                == next.entries.dom().contains(k as Id));
                        }
                    } else {
                        assert(next.candidates[i].0 == inode);
                    }
                }
            }
            if next.candidates.len() > 0 {
                lemma_shorter_pass((next.candidates.len() - 1) as nat, (length - 1) as nat);
            }
            whole_collections_leave_nothing(next, left, (limit - 1) as nat);
        }
    }
}

/// Where nothing can be reclaimed, a collection reclaims nothing.
pub proof fn settled_views_stay(state: ResidencyView, unchanged: nat, limit: nat)
    requires
        sound(state.entries),
        lined(state),
        settled(state.entries),
    ensures
        collected(state, unchanged, limit).1 == Seq::<u64>::empty(),
    decreases limit,
{
    if !(limit == 0 || unchanged == 0 || state.candidates.len() == 0) {
        lemma_step(state, unchanged, limit);
        let next = looked_at(state);
        assert(settled(next.entries)) by {
            assert forall|id: Id| #[trigger] next.entries.contains_key(id) implies !reclaimable(
                id as u64,
                next.entries[id],
            ) by {
                assert(state.entries.contains_key(id));
            }
        }
        settled_views_stay(next, (unchanged - 1) as nat, (limit - 1) as nat);
    }
}

/// The kernel, a copy, a view below, or a count that did not fit, keeps the view.
pub open spec fn referred_to(residence: Residence) -> bool {
    residence.kernel > 0 || residence.quarantine || residence.leases > 0 || residence.children > 0
}

/// A whole pass leaves the root and views that something refers to, and a second one
/// finds nothing to do.
pub proof fn whole_collections_are_final(state: ResidencyView, limit: nat, again: nat)
    requires
        sound(state.entries),
        lined(state),
        limit >= longest_pass(state.candidates.len()),
    ensures
        ({
            let after = collected(state, state.candidates.len(), limit).0;
            &&& settled(after.entries)
            &&& forall|id: Id| #[trigger]
                after.entries.contains_key(id) && id != ROOT ==> referred_to(after.entries[id])
            &&& collected(after, after.candidates.len(), again).1 == Seq::<u64>::empty()
        }),
{
    let length = state.candidates.len();
    whole_collections_leave_nothing(state, length, limit);
    collections_harm_nothing(state, length, limit);
    let after = collected(state, length, limit).0;
    settled_views_stay(after, after.candidates.len(), again);
    assert forall|id: Id| #[trigger] after.entries.contains_key(id) && id != ROOT implies referred_to(
        after.entries[id],
    ) by {
        assert(!reclaimable(id as u64, after.entries[id]));
    }
}

/// A pass without a limit of its own leaves the root and views that something refers to,
/// and a second one finds nothing to do, as long as the longest pass can be counted.
pub proof fn unlimited_collections_are_final(state: ResidencyView)
    requires
        sound(state.entries),
        lined(state),
        state.candidates.len() * (state.candidates.len() + 1) <= 2 * usize::MAX,
    ensures
        ({
            let after = collected(state, state.candidates.len(), usize::MAX as nat).0;
            &&& forall|id: Id| #[trigger]
                after.entries.contains_key(id) && id != ROOT ==> referred_to(after.entries[id])
            &&& collected(after, after.candidates.len(), usize::MAX as nat).1 == Seq::<
                u64,
            >::empty()
        }),
{
    passes_are_bounded(state.candidates.len());
    whole_collections_are_final(state, usize::MAX as nat, usize::MAX as nat);
}

/// A pass that gets as far as the candidate of a view that nothing refers to removes it.
proof fn lemma_met(state: ResidencyView, unchanged: nat, limit: nat, inode: u64, place: int)
    requires
        sound(state.entries),
        lined(state),
        state.entries.contains_key(inode as Id),
        reclaimable(inode, state.entries[inode as Id]),
        0 <= place < state.candidates.len(),
        state.candidates[place] == (inode, state.entries[inode as Id].generation),
        place < unchanged,
        place < limit,
    ensures
        !collected(state, unchanged, limit).0.entries.contains_key(inode as Id),
    decreases limit,
{
    lemma_step(state, unchanged, limit);
    let next = looked_at(state);
    let left = if reclaims_first(state) {
        (state.candidates.len() - 1) as nat
    } else {
        (unchanged - 1) as nat
    };
    collections_harm_nothing(next, left, (limit - 1) as nat);
    if next.entries.contains_key(inode as Id) {
        assert(state.candidates[0] != state.candidates[place]);
        assert(next.candidates[place - 1] == state.candidates[place]);
        lemma_met(next, left, (limit - 1) as nat, inode, place - 1);
    }
}

/// A pass that may look at every candidate removes every view that nothing refers to.
pub proof fn collections_remove_what_is_free(state: ResidencyView, limit: nat, inode: u64)
    requires
        sound(state.entries),
        lined(state),
        limit >= state.candidates.len(),
        state.entries.contains_key(inode as Id),
        reclaimable(inode, state.entries[inode as Id]),
    ensures
        !collected(state, state.candidates.len(), limit).0.entries.contains_key(inode as Id),
{
    let wanted = (inode, state.entries[inode as Id].generation);
    let id = inode as Id;
    assert(state.entries[id].queued);
    assert(state.candidates.contains((id as u64, state.entries[id].generation)));
    let place = choose|place: int|
        0 <= place < state.candidates.len() && state.candidates[place] == wanted;
    lemma_met(state, state.candidates.len(), limit, inode, place);
}

/// A copy that is given back changes no place in the tree.
proof fn lemma_given_back(state: ResidencyView, inode: u64, parent: u64)
    requires
        sound(state.entries),
        lined(state),
        inode != parent,
        state.entries.contains_key(inode as Id),
        state.entries.contains_key(parent as Id),
        state.entries[inode as Id].leases > 0,
        state.entries[parent as Id].leases > 0,
    ensures
        sound(given_back(state, inode, parent).entries),
        lined(given_back(state, inode, parent)),
        given_back(state, inode, parent).entries.dom() == state.entries.dom(),
{
    let after = given_back(state, inode, parent);
    assert(after.entries.dom() =~= state.entries.dom());
    lemma_same_shape(state.entries, after.entries);
}

/// A view that is placed again keeps the tree sound and the candidates complete.
proof fn lemma_placed_again(state: ResidencyView, inode: u64, parent: u64, directory: bool)
    requires
        sound(state.entries),
        lined(state),
        state.entries.contains_key(inode as Id),
        placed(state, inode, parent, directory) is Ok,
    ensures
        sound(placed(state, inode, parent, directory)->Ok_0.entries),
        lined(placed(state, inode, parent, directory)->Ok_0),
        inode != parent,
        state.entries[inode as Id].parent != inode,
{
    let id = inode as Id;
    let middle = seated(state, inode, parent, directory);
    let after = placed(state, inode, parent, directory)->Ok_0;
    placing_keeps_the_tree_sound(state, inode, parent, directory);
    assert(state.entries.contains_key(state.entries[id].parent as Id));
    let depth = depth_of(state.entries, inode);
    if state.entries[id].parent == inode {
        lemma_one_depth(state.entries, inode, depth, (depth - 1) as nat);
    }
    let held = ResidencyView { entries: leased(leased(middle, inode, 1), parent, 1), ..state };
    assert(lined_but(held, inode)) by {
        assert forall|k: Id| #[trigger]
            held.entries.contains_key(k) && k != inode implies state.entries.contains_key(k)
            && held.entries[k].kernel == state.entries[k].kernel && held.entries[k].quarantine
            == state.entries[k].quarantine && held.entries[k].queued == state.entries[k].queued
            && held.entries[k].generation == state.entries[k].generation by {}
    }
    lemma_lined_up(held, inode);
    assert(after.entries.dom() =~= middle.dom());
    lemma_same_shape(middle, after.entries);
}

/// What is left of the views by a pass over all candidates.
pub open spec fn passed(state: ResidencyView, limit: nat) -> ResidencyView {
    collected(state, state.candidates.len(), limit).0
}

/// A view that is shown again under another path stays while a copy of either version is
/// held, whatever is collected, and shows the later version. It is reclaimed once both
/// are given back, in either order, where nothing else refers to it and the pass may look
/// at every candidate.
pub proof fn views_shown_again_stay_until_both_copies_are_back(
    before: NamespaceState,
    view: ResolvedView,
    later_first: bool,
    passes: (nat, nat, nat),
)
    requires
        sound(before.residency.entries),
        lined(before.residency),
        agrees(before),
        before.views.contains_key(view.inode as Id),
        shown(before, view) is Ok,
        before.residency.entries[view.inode as Id].leases < u64::MAX,
        before.residency.entries[view.parent as Id].leases < u64::MAX,
        // The earlier copy is held, and holds the parent that it was shown below.
        before.residency.entries[view.inode as Id].leases > 0,
        before.residency.entries[before.views[view.inode as Id].parent as Id].leases > 0,
    ensures
        ({
            let id = view.inode as Id;
            let earlier = before.views[id].parent;
            let (first, second) = if later_first {
                (view.parent, earlier)
            } else {
                (earlier, view.parent)
            };
            let after = shown(before, view)->Ok_0;
            let held = passed(after.residency, passes.0);
            let one = given_back(held, view.inode, first);
            let still = passed(one, passes.1);
            let none = given_back(still, view.inode, second);
            let others = before.residency.entries[id].leases > 1
                || before.residency.entries[id].kernel > 0
                || before.residency.entries[id].quarantine;
            &&& after.views[id] == view
            &&& after.views.dom() == before.views.dom()
            &&& held.entries.contains_key(id)
            &&& held.entries[id].leases == before.residency.entries[id].leases + 1
            &&& still.entries.contains_key(id)
            &&& still.entries[id].leases == before.residency.entries[id].leases
            &&& none.entries[id].leases + 1 == before.residency.entries[id].leases
            &&& others ==> passed(none, passes.2).entries.contains_key(id)
            &&& !others && before.residency.entries[id].children == 0 && passes.2
                >= none.candidates.len() ==> !passed(none, passes.2).entries.contains_key(id)
        }),
{
    let inode = view.inode;
    let id = inode as Id;
    let directory = view.node.kind == NodeKind::Folder;
    let start = before.residency;
    assert(start.entries.dom().contains(id));
    let earlier = before.views[id].parent;
    assert(start.entries[id].parent == earlier);
    assert(start.entries.contains_key(earlier as Id));
    lemma_placed_again(start, inode, view.parent, directory);
    let after = shown(before, view)->Ok_0;
    assert(after.views.dom() =~= before.views.dom());
    let (first, second) = if later_first {
        (view.parent, earlier)
    } else {
        (earlier, view.parent)
    };
    let shown_again = after.residency;
    assert(shown_again.entries[id].leases == start.entries[id].leases + 1);
    assert(shown_again.entries[id].children == start.entries[id].children);
    assert(shown_again.entries[first as Id].leases > 0);
    assert(shown_again.entries[second as Id].leases > 0);
    assert(first == second ==> shown_again.entries[first as Id].leases > 1);
    let held = passed(shown_again, passes.0);
    lemma_pass_keeps(shown_again, passes.0, inode);
    lemma_pass_keeps(shown_again, passes.0, first);
    lemma_pass_keeps(shown_again, passes.0, second);
    lemma_given_back(held, inode, first);
    let one = given_back(held, inode, first);
    let still = passed(one, passes.1);
    lemma_pass_keeps(one, passes.1, inode);
    lemma_pass_keeps(one, passes.1, second);
    lemma_given_back(still, inode, second);
    let none = given_back(still, inode, second);
    if reclaimable(inode, none.entries[id]) && passes.2 >= none.candidates.len() {
        collections_remove_what_is_free(none, passes.2, inode);
    }
    if none.entries[id].leases > 0 || none.entries[id].kernel > 0 || none.entries[id].quarantine {
        collections_spare_what_is_referred_to(none, none.candidates.len(), passes.2, inode);
    }
}

/// A pass keeps a view that a copy refers to, and what refers to it.
proof fn lemma_pass_keeps(state: ResidencyView, limit: nat, inode: u64)
    requires
        sound(state.entries),
        lined(state),
        state.entries.contains_key(inode as Id),
        state.entries[inode as Id].leases > 0,
    ensures
        sound(passed(state, limit).entries),
        lined(passed(state, limit)),
        passed(state, limit).entries.contains_key(inode as Id),
        unharmed(state.entries[inode as Id], passed(state, limit).entries[inode as Id]),
{
    collections_harm_nothing(state, state.candidates.len(), limit);
    collections_spare_what_is_referred_to(state, state.candidates.len(), limit, inode);
}

/// The way up from a view to the root has exactly so many steps.
pub open spec fn at_depth(entries: Map<Id, Residence>, at: u64, depth: nat) -> bool
    decreases depth,
{
    if depth == 0 {
        at == ROOT
    } else {
        at != ROOT && entries.contains_key(at as Id) && at_depth(
            entries,
            entries[at as Id].parent,
            (depth - 1) as nat,
        )
    }
}

/// The way up from a view to the root has no more than so many steps.
pub open spec fn no_deeper(entries: Map<Id, Residence>, at: u64, depth: nat) -> bool {
    exists|d: nat| d <= depth && #[trigger] at_depth(entries, at, d)
}

/// A view is another one, or stands on the way up from it to the root.
pub open spec fn at_or_above(
    entries: Map<Id, Residence>,
    inode: u64,
    at: u64,
    steps: nat,
) -> bool
    decreases steps,
{
    inode == at || (at != ROOT && steps > 0 && at_or_above(
        entries,
        inode,
        entries[at as Id].parent,
        (steps - 1) as nat,
    ))
}

/// A view is another one or one of its ancestors.
pub open spec fn is_ancestor(entries: Map<Id, Residence>, inode: u64, at: u64) -> bool {
    exists|steps: nat| at_or_above(entries, inode, at, steps)
}

proof fn lemma_depth(entries: Map<Id, Residence>, at: u64, steps: nat) -> (depth: nat)
    requires
        reaches(entries, at, steps),
    ensures
        at_depth(entries, at, depth),
        depth <= steps,
    decreases steps,
{
    if at == ROOT {
        0
    } else {
        let above = lemma_depth(entries, entries[at as Id].parent, (steps - 1) as nat);
        above + 1
    }
}

/// How many steps the way up from a view to the root has.
pub proof fn depth_of(entries: Map<Id, Residence>, at: u64) -> (depth: nat)
    requires
        sound(entries),
        entries.contains_key(at as Id),
    ensures
        at_depth(entries, at, depth),
{
    assert(rooted(entries, at)) by {
        let id = at as Id;
        assert(rooted(entries, id as u64));
    }
    let steps = choose|steps: nat| reaches(entries, at, steps);
    lemma_depth(entries, at, steps)
}

proof fn lemma_one_depth(entries: Map<Id, Residence>, at: u64, a: nat, b: nat)
    requires
        at_depth(entries, at, a),
        at_depth(entries, at, b),
    ensures
        a == b,
    decreases a,
{
    if a > 0 && b > 0 {
        lemma_one_depth(entries, entries[at as Id].parent, (a - 1) as nat, (b - 1) as nat);
    }
}

/// The views on the way up from one, itself and the root counted.
proof fn lemma_way_up(entries: Map<Id, Residence>, at: u64, depth: nat) -> (way: Set<Id>)
    requires
        sound(entries),
        entries.contains_key(at as Id),
        at_depth(entries, at, depth),
    ensures
        way.finite(),
        way.subset_of(entries.dom()),
        way.len() == depth + 1,
        forall|id: Id| #[trigger]
            way.contains(id) ==> no_deeper(entries, id as u64, depth),
    decreases depth,
{
    if depth == 0 {
        let way = Set::<Id>::empty().insert(ROOT as Id);
        assert forall|id: Id| #[trigger] way.contains(id) implies no_deeper(
            entries,
            id as u64,
            depth,
        ) by {
            assert(at_depth(entries, ROOT, 0));
        }
        way
    } else {
        let up = entries[at as Id].parent;
        assert(entries.contains_key(up as Id));
        let above = lemma_way_up(entries, up, (depth - 1) as nat);
        if above.contains(at as Id) {
            assert(no_deeper(entries, at, (depth - 1) as nat));
            let d = choose|d: nat| d <= depth - 1 && #[trigger] at_depth(entries, at, d);
            lemma_one_depth(entries, at, d, depth);
        }
        let way = above.insert(at as Id);
        assert forall|id: Id| #[trigger] way.contains(id) implies no_deeper(
            entries,
            id as u64,
            depth,
        ) by {
            if id == at as Id {
                assert(at_depth(entries, at, depth));
            } else {
                assert(above.contains(id));
                let view = id as u64;
                let d = choose|d: nat| d <= depth - 1 && #[trigger] at_depth(entries, view, d);
                assert(at_depth(entries, view, d));
            }
        }
        way
    }
}

proof fn lemma_climb(entries: Map<Id, Residence>, inode: u64, at: u64, depth: nat, steps: nat)
    requires
        sound(entries),
        entries.contains_key(at as Id),
        at_depth(entries, at, depth),
        steps > depth,
    ensures
        climb(entries, inode, at, steps) == (if at_or_above(entries, inode, at, depth) {
            Some(ViewError::Cycle)
        } else {
            None
        }),
    decreases depth,
{
    if at != inode && at != ROOT {
        let up = entries[at as Id].parent;
        assert(entries.contains_key(up as Id));
        lemma_climb(entries, inode, up, (depth - 1) as nat, (steps - 1) as nat);
    }
}

proof fn lemma_above_bounded(entries: Map<Id, Residence>, inode: u64, at: u64, depth: nat, steps: nat)
    requires
        at_depth(entries, at, depth),
        at_or_above(entries, inode, at, steps),
    ensures
        at_or_above(entries, inode, at, depth),
    decreases depth,
{
    if at != inode {
        lemma_above_bounded(
            entries,
            inode,
            entries[at as Id].parent,
            (depth - 1) as nat,
            (steps - 1) as nat,
        );
    }
}

/// A view is refused a place exactly where its inode is reserved, where its parent is not
/// resident or no directory, where it is its own parent or an ancestor of it, or where no
/// more views can be told apart.
pub proof fn refusals_are_exact(state: ResidencyView, inode: u64, parent: u64)
    requires
        sound(state.entries),
    ensures
        place_refusal(state, inode, parent) == (if inode <= ROOT {
            Some(ViewError::Reserved)
        } else if !state.entries.contains_key(parent as Id) {
            Some(ViewError::NotFound)
        } else if !state.entries[parent as Id].directory {
            Some(ViewError::NotDirectory)
        } else if is_ancestor(state.entries, inode, parent) {
            Some(ViewError::Cycle)
        } else if !state.entries.contains_key(inode as Id) && state.generation == u64::MAX {
            Some(ViewError::Generations)
        } else {
            None
        }),
{
    let entries = state.entries;
    if entries.contains_key(parent as Id) {
        let depth = depth_of(entries, parent);
        let way = lemma_way_up(entries, parent, depth);
        vstd::set_lib::lemma_len_subset(way, entries.dom());
        lemma_climb(entries, inode, parent, depth, entries.len());
        if is_ancestor(entries, inode, parent) {
            let far = choose|far: nat| at_or_above(entries, inode, parent, far);
            lemma_above_bounded(entries, inode, parent, depth, far);
        } else {
            assert(!at_or_above(entries, inode, parent, depth));
        }
    }
}

/// A view that is shown again keeps what refers to it: the kernel's lookups, its copies and
/// the views below it, with one copy more.
pub proof fn views_shown_again_keep_their_references(
    state: ResidencyView,
    inode: u64,
    parent: u64,
    directory: bool,
)
    requires
        sound(state.entries),
        state.entries.contains_key(inode as Id),
        state.entries[inode as Id].leases < u64::MAX,
        placed(state, inode, parent, directory) is Ok,
    ensures
        ({
            let before = state.entries[inode as Id];
            let after = placed(state, inode, parent, directory)->Ok_0.entries;
            &&& after.dom() == state.entries.dom()
            &&& after[inode as Id].parent == parent
            &&& after[inode as Id].directory == directory
            &&& after[inode as Id].kernel == before.kernel
            &&& after[inode as Id].quarantine == before.quarantine
            &&& after[inode as Id].generation == before.generation
            &&& after[inode as Id].leases == before.leases + 1
        }),
{
    let id = inode as Id;
    assert(inode != parent);
    assert(state.entries.contains_key(state.entries[id].parent as Id));
    let after = placed(state, inode, parent, directory)->Ok_0.entries;
    assert(after.dom() =~= state.entries.dom());
}

} // verus!
