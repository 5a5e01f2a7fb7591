//! How long a resolved view stays: as long as the kernel, an open file or operation, or
//! a view below it refers to it. The root and views with inconsistent kernel counts
//! stay for good.
use crate::journal::tables::Table;
use crate::model::Id;
use std::collections::VecDeque;
use vstd::prelude::*;

verus! {

/// The inode of the root.
pub const ROOT: u64 = 1;

/// Why a view is not placed or not referred to.
#[derive(Debug, Clone, Copy, PartialEq, Eq, Structural)]
pub enum ViewError {
    /// There is no such view, or its parent is not there.
    NotFound,
    /// The inode is reserved for the root.
    Reserved,
    /// The parent is not a directory.
    NotDirectory,
    /// The view would be its own ancestor.
    Cycle,
    /// No more views can be told apart.
    Generations,
    /// The kernel refers to the view too often.
    References,
}

/// What keeps one view.
#[derive(Debug, Clone, Copy, PartialEq, Eq, Structural)]
pub struct Residence {
    pub parent: u64,
    pub directory: bool,
    pub generation: u64,
    pub queued: bool,
    /// Lookups that the kernel has not forgotten.
    pub kernel: u64,
    /// The kernel's count was inconsistent: never reclaim.
    pub quarantine: bool,
    /// Copies of the view, or of a view below it, outside the index.
    pub leases: u64,
    /// Views of the index whose parent this is.
    pub children: u64,
}

/// What keeps each view, and which ones may be reclaimable.
#[verifier::ext_equal]
pub struct ResidencyView {
    pub entries: Map<Id, Residence>,
    pub candidates: Seq<(u64, u64)>,
    pub generation: u64,
}

/// The views of the index whose parent this is.
pub open spec fn children_of(entries: Map<Id, Residence>, inode: u64) -> Set<Id> {
    entries.dom().filter(|child: Id| child != ROOT && entries[child].parent == inode)
}

/// The way up leads to the root in so many steps.
pub open spec fn reaches(entries: Map<Id, Residence>, at: u64, steps: nat) -> bool
    decreases steps,
{
    at == ROOT || (steps > 0 && entries.contains_key(at as Id) && reaches(
        entries,
        entries[at as Id].parent,
        (steps - 1) as nat,
    ))
}

/// The way up leads to the root.
pub open spec fn rooted(entries: Map<Id, Residence>, at: u64) -> bool {
    exists|steps: nat| reaches(entries, at, steps)
}

/// Every view is below a resident directory and in the end below the root, and the
/// counts of children are right.
pub open spec fn sound(entries: Map<Id, Residence>) -> bool {
    &&& entries.dom().finite()
    &&& entries.contains_key(ROOT as Id)
    &&& forall|id: Id| #[trigger] entries.contains_key(id) ==> ROOT <= id <= u64::MAX
    &&& forall|id: Id| #[trigger]
        entries.contains_key(id) && id != ROOT ==> entries.contains_key(entries[id].parent as Id)
    &&& forall|id: Id| #[trigger]
        entries.contains_key(id) ==> entries[id].children == children_of(entries, id as u64).len()
    &&& forall|id: Id| #[trigger] entries.contains_key(id) ==> rooted(entries, id as u64)
}

/// Every view but one that the kernel has forgotten is looked at by the next collections,
/// and what is marked as looked at stands among the candidates.
pub open spec fn lined_but(state: ResidencyView, inode: u64) -> bool {
    &&& forall|id: Id| #[trigger]
        state.entries.contains_key(id) && id != ROOT && id != inode && state.entries[id].kernel == 0
            && !state.entries[id].quarantine ==> state.entries[id].queued
    &&& forall|id: Id| #[trigger]
        state.entries.contains_key(id) && state.entries[id].queued ==> state.candidates.contains(
            (id as u64, state.entries[id].generation),
        )
}

/// Every view that the kernel has forgotten is looked at by the next collections.
pub open spec fn lined(state: ResidencyView) -> bool {
    lined_but(state, ROOT)
}

/// Whether the way up from `at` leads to the root without meeting `inode`.
pub open spec fn climb(entries: Map<Id, Residence>, inode: u64, at: u64, steps: nat) -> Option<
    ViewError,
>
    decreases steps,
{
    if steps == 0 || at == inode {
        Some(ViewError::Cycle)
    } else if at == ROOT {
        None
    } else if !entries.contains_key(at as Id) {
        Some(ViewError::NotFound)
    } else {
        climb(entries, inode, entries[at as Id].parent, (steps - 1) as nat)
    }
}

/// Why a view is not placed below a parent.
pub open spec fn place_refusal(state: ResidencyView, inode: u64, parent: u64) -> Option<ViewError> {
    if inode <= ROOT {
        Some(ViewError::Reserved)
    } else if !state.entries.contains_key(parent as Id) {
        Some(ViewError::NotFound)
    } else if !state.entries[parent as Id].directory {
        Some(ViewError::NotDirectory)
    } else {
        match climb(state.entries, inode, parent, state.entries.len()) {
            Some(error) => Some(error),
            None => if !state.entries.contains_key(inode as Id) && state.generation == u64::MAX {
                Some(ViewError::Generations)
            } else {
                None
            },
        }
    }
}

/// One more, or one fewer, view of the index has this parent.
pub open spec fn child_added(entries: Map<Id, Residence>, parent: u64, by: int) -> Map<
    Id,
    Residence,
> {
    entries.insert(
        parent as Id,
        Residence {
            children: (entries[parent as Id].children + by) as u64,
            ..entries[parent as Id]
        },
    )
}

/// One more, or one fewer, copy of the view is outside the index.
pub open spec fn leased(entries: Map<Id, Residence>, inode: u64, by: int) -> Map<Id, Residence> {
    entries.insert(
        inode as Id,
        Residence { leases: (entries[inode as Id].leases + by) as u64, ..entries[inode as Id] },
    )
}

/// The views once a copy of one was given back that had this parent.
pub open spec fn given_back(state: ResidencyView, inode: u64, parent: u64) -> ResidencyView {
    ResidencyView { entries: leased(leased(state.entries, inode, -1), parent, -1), ..state }
}

/// The view is looked at by the next collections, unless it already is, or stays for
/// good.
pub open spec fn lined_up(state: ResidencyView, inode: u64) -> ResidencyView {
    if state.entries.contains_key(inode as Id) && inode != ROOT
        && !state.entries[inode as Id].queued && !state.entries[inode as Id].quarantine {
        ResidencyView {
            entries: state.entries.insert(
                inode as Id,
                Residence { queued: true, ..state.entries[inode as Id] },
            ),
            candidates: state.candidates.push((inode, state.entries[inode as Id].generation)),
            ..state
        }
    } else {
        state
    }
}

/// The entries with a view below a parent. A view that was there already keeps what
/// refers to it.
pub open spec fn seated(state: ResidencyView, inode: u64, parent: u64, directory: bool) -> Map<
    Id,
    Residence,
> {
    if state.entries.contains_key(inode as Id) {
        let before = state.entries[inode as Id];
        let left = child_added(state.entries, before.parent, -1);
        let moved = left.insert(
            inode as Id,
            Residence { parent, directory, ..left[inode as Id] },
        );
        child_added(moved, parent, 1)
    } else {
        let added = state.entries.insert(
            inode as Id,
            Residence {
                parent,
                directory,
                generation: (state.generation + 1) as u64,
                queued: false,
                kernel: 0,
                quarantine: false,
                leases: 0,
                children: 0,
            },
        );
        child_added(added, parent, 1)
    }
}

/// The views once one was placed, with a copy of it handed out.
pub open spec fn placed(state: ResidencyView, inode: u64, parent: u64, directory: bool) -> Result<
    ResidencyView,
    ViewError,
> {
    match place_refusal(state, inode, parent) {
        Some(error) => Err(error),
        None => {
            let entries = seated(state, inode, parent, directory);
            let generation = if state.entries.contains_key(inode as Id) {
                state.generation
            } else {
                (state.generation + 1) as u64
            };
            Ok(
                lined_up(
                    ResidencyView {
                        entries: leased(leased(entries, inode, 1), parent, 1),
                        generation,
                        ..state
                    },
                    inode,
                ),
            )
        },
    }
}

/// Nothing refers to the view.
pub open spec fn reclaimable(inode: u64, residence: Residence) -> bool {
    inode != ROOT && residence.kernel == 0 && !residence.quarantine && residence.leases == 0
        && residence.children == 0
}

/// The views without one that nothing refers to.
pub open spec fn reclaimed(state: ResidencyView, inode: u64) -> ResidencyView {
    ResidencyView {
        entries: child_added(state.entries, state.entries[inode as Id].parent, -1).remove(
            inode as Id,
        ),
        ..state
    }
}

/// What came of forgetting.
#[derive(Debug, Clone, Copy, PartialEq, Eq, Structural)]
pub enum Forgotten {
    /// The view stays.
    Kept,
    /// Nothing refers to the view any more; it is gone.
    Removed,
    /// The count does not fit: the view stays for good.
    Inconsistent,
}

/// The views once the kernel forgot some lookups of one.
pub open spec fn forgotten(state: ResidencyView, inode: u64, count: u64) -> (
    ResidencyView,
    Forgotten,
) {
    if inode == ROOT || count == 0 {
        (state, Forgotten::Kept)
    } else if !state.entries.contains_key(inode as Id) {
        (state, Forgotten::Inconsistent)
    } else {
        let residence = state.entries[inode as Id];
        if residence.kernel < count {
            (
                ResidencyView {
                    entries: state.entries.insert(
                        inode as Id,
                        Residence { quarantine: true, ..residence },
                    ),
                    ..state
                },
                Forgotten::Inconsistent,
            )
        } else {
            let next = Residence { kernel: (residence.kernel - count) as u64, ..residence };
            let after = ResidencyView {
                entries: state.entries.insert(inode as Id, next),
                ..state
            };
            if next.kernel != 0 {
                (after, Forgotten::Kept)
            } else if reclaimable(inode, next) {
                (reclaimed(after, inode), Forgotten::Removed)
            } else {
                (lined_up(after, inode), Forgotten::Kept)
            }
        }
    }
}

/// The views once the kernel looked one up.
pub open spec fn looked_up(state: ResidencyView, inode: u64) -> (
    ResidencyView,
    Result<(), ViewError>,
) {
    if !state.entries.contains_key(inode as Id) {
        (state, Err(ViewError::NotFound))
    } else {
        let residence = state.entries[inode as Id];
        if residence.kernel == u64::MAX {
            (
                ResidencyView {
                    entries: state.entries.insert(
                        inode as Id,
                        Residence { quarantine: true, ..residence },
                    ),
                    ..state
                },
                Err(ViewError::References),
            )
        } else {
            (
                ResidencyView {
                    entries: state.entries.insert(
                        inode as Id,
                        Residence { kernel: (residence.kernel + 1) as u64, ..residence },
                    ),
                    ..state
                },
                Ok(()),
            )
        }
    }
}

/// What one collection leaves, and which views it reclaims, in order. It looks at each
/// candidate once, and starts to count again after a removal, because a child that goes
/// can free an ancestor that was looked at before; `limit` bounds the work either way.
pub open spec fn collected(state: ResidencyView, unchanged: nat, limit: nat) -> (
    ResidencyView,
    Seq<u64>,
)
    decreases limit,
{
    if limit == 0 || unchanged == 0 || state.candidates.len() == 0 {
        (state, Seq::empty())
    } else {
        let (inode, generation) = state.candidates[0];
        let popped = ResidencyView { candidates: state.candidates.drop_first(), ..state };
        let left = (unchanged - 1) as nat;
        let rest = (limit - 1) as nat;
        if !state.entries.contains_key(inode as Id) || state.entries[inode as Id].generation
            != generation {
            collected(popped, left, rest)
        } else {
            let residence = Residence { queued: false, ..state.entries[inode as Id] };
            let seen = ResidencyView {
                entries: state.entries.insert(inode as Id, residence),
                ..popped
            };
            if reclaimable(inode, residence) {
                let (after, others) = collected(
                    reclaimed(seen, inode),
                    popped.candidates.len(),
                    rest,
                );
                (after, seq![inode] + others)
            } else if residence.kernel == 0 {
                collected(lined_up(seen, inode), left, rest)
            } else {
                collected(seen, left, rest)
            }
        }
    }
}

proof fn lemma_reach_more(entries: Map<Id, Residence>, at: u64, steps: nat, more: nat)
    requires
        reaches(entries, at, steps),
        steps <= more,
    ensures
        reaches(entries, at, more),
    decreases steps,
{
    if at != ROOT {
        lemma_reach_more(
            entries,
            entries[at as Id].parent,
            (steps - 1) as nat,
            (more - 1) as nat,
        );
    }
}

/// The two agree on the parents of everything but one view.
pub open spec fn same_parents_but(
    a: Map<Id, Residence>,
    b: Map<Id, Residence>,
    inode: u64,
) -> bool {
    forall|id: Id| #[trigger]
        a.contains_key(id) && id != inode ==> b.contains_key(id) && b[id].parent == a[id].parent
}

proof fn lemma_climb_reaches(
    before: Map<Id, Residence>,
    after: Map<Id, Residence>,
    inode: u64,
    at: u64,
    steps: nat,
)
    requires
        climb(before, inode, at, steps) is None,
        same_parents_but(before, after, inode),
    ensures
        reaches(after, at, steps),
    decreases steps,
{
    if at != ROOT {
        assert(before.contains_key(at as Id));
        lemma_climb_reaches(
            before,
            after,
            inode,
            before[at as Id].parent,
            (steps - 1) as nat,
        );
    }
}

proof fn lemma_still_reaches(
    before: Map<Id, Residence>,
    after: Map<Id, Residence>,
    inode: u64,
    at: u64,
    steps: nat,
    above: nat,
)
    requires
        reaches(before, at, steps),
        same_parents_but(before, after, inode),
        after.contains_key(inode as Id),
        reaches(after, after[inode as Id].parent, above),
    ensures
        rooted(after, at),
        reaches(after, at, steps + above + 1),
    decreases steps,
{
    if at == ROOT {
    } else if at == inode {
        lemma_reach_more(after, after[inode as Id].parent, above, steps + above);
    } else {
        assert(before.contains_key(at as Id));
        lemma_still_reaches(
            before,
            after,
            inode,
            before[at as Id].parent,
            (steps - 1) as nat,
            above,
        );
    }
    assert(reaches(after, at, steps + above + 1));
}

/// Changing neither parents nor the set of views nor counts of children keeps the
/// index sound.
pub proof fn lemma_same_shape(a: Map<Id, Residence>, b: Map<Id, Residence>)
    requires
        sound(a),
        b.dom() == a.dom(),
        forall|id: Id| #[trigger]
            a.contains_key(id) ==> b[id].parent == a[id].parent && b[id].children == a[id].children,
    ensures
        sound(b),
{
    assert forall|id: Id| #[trigger] b.contains_key(id) implies b[id].children == children_of(
        b,
        id as u64,
    ).len() && rooted(b, id as u64) && ROOT <= id <= u64::MAX && (id != ROOT ==> b.contains_key(
        b[id].parent as Id,
    )) by {
        assert(a.contains_key(id));
        assert(children_of(b, id as u64) =~= children_of(a, id as u64));
        let at = id as u64;
        let steps = choose|steps: nat| reaches(a, at, steps);
        lemma_same_reach(a, b, at, steps);
    }
    assert(a.contains_key(ROOT as Id));
    assert(b.contains_key(ROOT as Id));
}

proof fn lemma_same_reach(
    a: Map<Id, Residence>,
    b: Map<Id, Residence>,
    at: u64,
    steps: nat,
)
    requires
        reaches(a, at, steps),
        forall|id: Id| #[trigger]
            a.contains_key(id) ==> b.contains_key(id) && b[id].parent == a[id].parent,
    ensures
        reaches(b, at, steps),
        rooted(b, at),
    decreases steps,
{
    if at != ROOT {
        assert(a.contains_key(at as Id));
        lemma_same_reach(a, b, a[at as Id].parent, (steps - 1) as nat);
    }
    assert(reaches(b, at, steps));
}

/// Placing a view keeps the index sound: no view ever becomes its own ancestor, and
/// every parent stays resident.
pub proof fn placing_keeps_the_tree_sound(
    state: ResidencyView,
    inode: u64,
    parent: u64,
    directory: bool,
)
    requires
        sound(state.entries),
        place_refusal(state, inode, parent) is None,
    ensures
        sound(seated(state, inode, parent, directory)),
{
    let before = state.entries;
    let after = seated(state, inode, parent, directory);
    let id = inode as Id;
    assert(same_parents_but(before, after, inode));
    lemma_climb_reaches(before, after, inode, parent, before.len());
    assert(after[id].parent == parent);
    assert(after.dom() =~= before.dom().insert(id));
    assert forall|k: Id| #[trigger] after.contains_key(k) implies rooted(after, k as u64) by {
        if k == id {
            assert(reaches(after, inode, before.len() + 1));
        } else {
            assert(before.contains_key(k));
            let at = k as u64;
            let steps = choose|steps: nat| reaches(before, at, steps);
            lemma_still_reaches(before, after, inode, at, steps, before.len());
        }
    }
    assert forall|k: Id| #[trigger] after.contains_key(k) && k != ROOT implies after.contains_key(
        after[k].parent as Id,
    ) by {
        if k != id {
            assert(before.contains_key(k));
        }
    }
    assert forall|k: Id| #[trigger] after.contains_key(k) implies after[k].children == children_of(
        after,
        k as u64,
    ).len() by {
        let now = children_of(after, k as u64);
        if before.contains_key(k) {
            let was = children_of(before, k as u64);
            assert(before[k].children == was.len());
            if before.contains_key(id) {
                let left = before[id].parent;
                assert(before.contains_key(left as Id));
                if k == left && k == parent {
                    assert(now =~= was);
                    assert(was.contains(id));
                } else if k == left {
                    assert(was.contains(id));
                    assert(now =~= was.remove(id));
                } else if k == parent {
                    assert(!was.contains(id));
                    assert(now =~= was.insert(id));
                    lemma_children_bound(before, k as u64);
                } else {
                    assert(now =~= was);
                }
            } else {
                if k == parent {
                    assert(!was.contains(id));
                    assert(now =~= was.insert(id));
                    lemma_children_bound(before, k as u64);
                } else {
                    assert(now =~= was);
                }
            }
        } else {
            assert(k == id);
            assert(now =~= Set::<Id>::empty()) by {
                assert forall|c: Id| !now.contains(c) by {
                    if now.contains(c) {
                        if c == id {
                            assert(after[c].parent == parent);
                            assert(before.contains_key(parent as Id));
                        } else {
                            assert(before.contains_key(c));
                            assert(before.contains_key(before[c].parent as Id));
                        }
                    }
                }
            }
        }
    }
    assert forall|k: Id| #[trigger] after.contains_key(k) implies ROOT <= k <= u64::MAX by {
        if k != id {
            assert(before.contains_key(k));
        }
    }
}

/// Counts of children fit, because each is less than the number of views, and that one
/// fits 64 bits.
proof fn lemma_children_bound(entries: Map<Id, Residence>, inode: u64)
    requires
        sound(entries),
    ensures
        children_of(entries, inode).len() < u64::MAX,
{
    let ids = children_of(entries, inode);
    vstd::set_lib::lemma_len_subset(ids, entries.dom());
    let wide = ids.map(|id: Id| id as int);
    vstd::set_lib::lemma_map_size(ids, wide, |id: Id| id as int);
    vstd::set_lib::lemma_int_range(2, u64::MAX + 1);
    let range = vstd::set_lib::set_int_range(2, u64::MAX + 1);
    assert forall|value: int| #[trigger] wide.contains(value) implies range.contains(value) by {
        let id = choose|id: Id| ids.contains(id) && id as int == value;
        assert(entries.contains_key(id));
    }
    vstd::set_lib::lemma_len_subset(wide, range);
}

/// Reclaiming a view keeps the index sound: it has no view below it.
pub proof fn reclaiming_keeps_the_tree_sound(state: ResidencyView, inode: u64)
    requires
        sound(state.entries),
        state.entries.contains_key(inode as Id),
        reclaimable(inode, state.entries[inode as Id]),
    ensures
        sound(reclaimed(state, inode).entries),
{
    let before = state.entries;
    let after = reclaimed(state, inode).entries;
    let id = inode as Id;
    let parent = before[id].parent;
    assert(before.contains_key(parent as Id));
    let own = children_of(before, inode);
    assert(own.len() == 0);
    vstd::set_lib::lemma_len_subset(own, before.dom());
    assert(own =~= Set::<Id>::empty());
    assert(after.dom() =~= before.dom().remove(id));
    assert forall|k: Id| #[trigger] after.contains_key(k) && k != ROOT implies after.contains_key(
        after[k].parent as Id,
    ) by {
        assert(before.contains_key(k));
        if before[k].parent == inode {
            assert(own.contains(k));
        }
    }
    assert forall|k: Id| #[trigger] after.contains_key(k) implies after[k].children == children_of(
        after,
        k as u64,
    ).len() by {
        assert(before.contains_key(k));
        let was = children_of(before, k as u64);
        let now = children_of(after, k as u64);
        vstd::set_lib::lemma_len_subset(was, before.dom());
        if k == parent {
            assert(was.contains(id));
            assert(now =~= was.remove(id));
        } else {
            assert(now =~= was);
        }
    }
    assert forall|k: Id| #[trigger] after.contains_key(k) implies rooted(after, k as u64) by {
        assert(before.contains_key(k));
        let at = k as u64;
        let steps = choose|steps: nat| reaches(before, at, steps);
        lemma_reach_without(before, after, inode, at, steps);
    }
}

proof fn lemma_reach_without(
    before: Map<Id, Residence>,
    after: Map<Id, Residence>,
    inode: u64,
    at: u64,
    steps: nat,
)
    requires
        sound(before),
        before.contains_key(at as Id),
        reaches(before, at, steps),
        at != inode,
        inode != ROOT,
        children_of(before, inode) == Set::<Id>::empty(),
        same_parents_but(before, after, inode),
    ensures
        reaches(after, at, steps),
        rooted(after, at),
    decreases steps,
{
    if at != ROOT {
        let up = before[at as Id].parent;
        assert(before.contains_key(up as Id));
        if up == inode {
            assert(children_of(before, inode).contains(at as Id));
        }
        lemma_reach_without(before, after, inode, up, (steps - 1) as nat);
    }
    assert(reaches(after, at, steps));
}

/// A view that is lined up is not overlooked any more.
pub proof fn lemma_lined_up(state: ResidencyView, inode: u64)
    requires
        lined_but(state, inode),
    ensures
        lined(lined_up(state, inode)),
{
    let after = lined_up(state, inode);
    let id = inode as Id;
    if after != state {
        let pair = (inode, state.entries[id].generation);
        assert forall|k: Id| #[trigger] after.entries.contains_key(k) && after.entries[k].queued implies after.candidates.contains(
            (k as u64, after.entries[k].generation),
        ) by {
            if k == id {
                assert(after.candidates[state.candidates.len() as int] == pair);
            } else {
                assert(state.entries.contains_key(k));
                let wanted = (k as u64, state.entries[k].generation);
                let i = choose|i: int|
                    0 <= i < state.candidates.len() && state.candidates[i] == wanted;
                assert(after.candidates[i] == wanted);
            }
        }
    }
}

/// A view that a collection has looked at: its candidate is gone, and so is its mark.
pub proof fn lemma_looked_at(state: ResidencyView)
    requires
        sound(state.entries),
        lined(state),
        state.candidates.len() > 0,
    ensures
        ({
            let (inode, generation) = state.candidates[0];
            let popped = ResidencyView { candidates: state.candidates.drop_first(), ..state };
            if !state.entries.contains_key(inode as Id) || state.entries[inode as Id].generation
                != generation {
                lined(popped)
            } else {
                let seen = ResidencyView {
                    entries: state.entries.insert(
                        inode as Id,
                        Residence { queued: false, ..state.entries[inode as Id] },
                    ),
                    ..popped
                };
                lined_but(seen, inode)
            }
        }),
{
    let (inode, generation) = state.candidates[0];
    let rest = state.candidates.drop_first();
    assert forall|k: Id| #[trigger] state.entries.contains_key(k) && state.entries[k].queued && (k
        != inode || state.entries[k].generation != generation) implies rest.contains(
        (k as u64, state.entries[k].generation),
    ) by {
        let wanted = (k as u64, state.entries[k].generation);
        let i = choose|i: int| 0 <= i < state.candidates.len() && state.candidates[i] == wanted;
        assert(rest[i - 1] == wanted);
    }
}

/// What keeps the views of a mount.
pub struct Residency {
    pub entries: Table<Residence>,
    pub candidates: VecDeque<(u64, u64)>,
    pub generation: u64,
}

impl View for Residency {
    type V = ResidencyView;

    open spec fn view(&self) -> ResidencyView {
        ResidencyView {
            entries: self.entries@,
            candidates: self.candidates@,
            generation: self.generation,
        }
    }
}

impl Residency {
    /// The tree of views is sound, and no view that may be reclaimed is overlooked.
    pub open spec fn wf(&self) -> bool {
        sound(self@.entries) && lined(self@)
    }

    /// Only the root.
    pub fn new(directory: bool) -> (residency: Self)
        ensures
            residency.wf(),
            residency@ == (ResidencyView {
                entries: Map::<Id, Residence>::empty().insert(
                    ROOT as Id,
                    Residence {
                        parent: ROOT,
                        directory,
                        generation: 0,
                        queued: false,
                        kernel: 0,
                        quarantine: false,
                        leases: 0,
                        children: 0,
                    },
                ),
                candidates: Seq::empty(),
                generation: 0,
            }),
    {
        let mut entries: Table<Residence> = Table::new();
        entries.put(
            ROOT as Id,
            Residence {
                parent: ROOT,
                directory,
                generation: 0,
                queued: false,
                kernel: 0,
                quarantine: false,
                leases: 0,
                children: 0,
            },
        );
        let residency = Residency { entries, candidates: VecDeque::new(), generation: 0 };
        proof {
            let map = residency@.entries;
            assert(map.dom() =~= Set::<Id>::empty().insert(ROOT as Id));
            assert(children_of(map, ROOT) =~= Set::<Id>::empty());
            assert(reaches(map, ROOT, 0));
        }
        residency
    }

    /// What keeps a view.
    pub fn get(&self, inode: u64) -> (residence: Option<Residence>)
        ensures
            match residence {
                Some(residence) => self@.entries.contains_key(inode as Id) && residence
                    == self@.entries[inode as Id],
                None => !self@.entries.contains_key(inode as Id),
            },
    {
        match self.entries.get(inode as Id) {
            Some(residence) => Some(*residence),
            None => None,
        }
    }

    /// How many views there are.
    pub fn len(&self) -> (len: usize)
        ensures
            len == self@.entries.len(),
    {
        self.entries.len()
    }

    /// Why a view is not placed below a parent.
    pub fn refusal(&self, inode: u64, parent: u64) -> (error: Option<ViewError>)
        ensures
            error == place_refusal(self@, inode, parent),
    {
        if inode <= ROOT {
            return Some(ViewError::Reserved);
        }
        match self.get(parent) {
            None => {
                return Some(ViewError::NotFound);
            },
            Some(residence) => {
                if !residence.directory {
                    return Some(ViewError::NotDirectory);
                }
            },
        }
        let mut steps: usize = self.entries.len();
        let mut at: u64 = parent;
        while at != ROOT
            invariant
                steps <= self@.entries.len(),
                climb(self@.entries, inode, parent, self@.entries.len()) == climb(
                    self@.entries,
                    inode,
                    at,
                    steps as nat,
                ),
                place_refusal(self@, inode, parent) == (match climb(
                    self@.entries,
                    inode,
                    parent,
                    self@.entries.len(),
                ) {
                    Some(error) => Some(error),
                    None => if !self@.entries.contains_key(inode as Id) && self@.generation
                        == u64::MAX {
                        Some(ViewError::Generations)
                    } else {
                        None
                    },
                }),
            decreases steps,
        {
            if steps == 0 || at == inode {
                return Some(ViewError::Cycle);
            }
            match self.get(at) {
                None => {
                    return Some(ViewError::NotFound);
                },
                Some(residence) => {
                    at = residence.parent;
                },
            }
            steps = steps - 1;
        }
        if steps == 0 || at == inode {
            return Some(ViewError::Cycle);
        }
        if self.generation == u64::MAX && !self.entries.has(inode as Id) {
            return Some(ViewError::Generations);
        }
        None
    }

    /// Has the view looked at by the next collections.
    fn line_up(&mut self, inode: u64)
        ensures
            final(self)@ == lined_up(old(self)@, inode),
    {
        if let Some(residence) = self.get(inode) {
            if inode != ROOT && !residence.queued && !residence.quarantine {
                let mut next = residence;
                next.queued = true;
                self.entries.put(inode as Id, next);
                self.candidates.push_back((inode, residence.generation));
            }
        }
    }

    /// Counts a copy of the view outside the index.
    pub fn lease(&mut self, inode: u64)
        requires
            old(self)@.entries.contains_key(inode as Id),
            old(self)@.entries[inode as Id].leases < u64::MAX,
        ensures
            old(self).wf() ==> final(self).wf(),
            final(self)@ == (ResidencyView {
                entries: leased(old(self)@.entries, inode, 1),
                ..old(self)@
            }),
    {
        if let Some(residence) = self.get(inode) {
            let mut next = residence;
            next.leases = residence.leases + 1;
            self.entries.put(inode as Id, next);
        }
        proof {
            assert(self@.entries.dom() =~= old(self)@.entries.dom());
            if old(self).wf() {
                lemma_same_shape(old(self)@.entries, self@.entries);
            }
        }
    }

    /// Counts one copy of the view fewer.
    pub fn end_lease(&mut self, inode: u64)
        requires
            old(self)@.entries.contains_key(inode as Id),
            old(self)@.entries[inode as Id].leases > 0,
        ensures
            old(self).wf() ==> final(self).wf(),
            final(self)@ == (ResidencyView {
                entries: leased(old(self)@.entries, inode, -1),
                ..old(self)@
            }),
    {
        if let Some(residence) = self.get(inode) {
            let mut next = residence;
            next.leases = residence.leases - 1;
            self.entries.put(inode as Id, next);
        }
        proof {
            assert(self@.entries.dom() =~= old(self)@.entries.dom());
            if old(self).wf() {
                lemma_same_shape(old(self)@.entries, self@.entries);
            }
        }
    }

    /// Counts one view of the index below a parent, more or fewer.
    fn count_child(&mut self, parent: u64, more: bool)
        requires
            old(self)@.entries.contains_key(parent as Id),
            more ==> old(self)@.entries[parent as Id].children < u64::MAX,
            !more ==> old(self)@.entries[parent as Id].children > 0,
        ensures
            final(self)@ == (ResidencyView {
                entries: child_added(
                    old(self)@.entries,
                    parent,
                    if more {
                        1int
                    } else {
                        -1int
                    },
                ),
                ..old(self)@
            }),
    {
        if let Some(residence) = self.get(parent) {
            let mut next = residence;
            if more {
                next.children = residence.children + 1;
            } else {
                next.children = residence.children - 1;
            }
            self.entries.put(parent as Id, next);
        }
    }

    /// Places a view below a parent and hands a copy of it out. Every copy holds the
    /// view and its parent, until it is given back.
    pub fn place(&mut self, inode: u64, parent: u64, directory: bool) -> (result: Result<
        (),
        ViewError,
    >)
        requires
            old(self).wf(),
            old(self)@.entries.contains_key(inode as Id) ==> old(self)@.entries[inode as Id].leases < u64::MAX,
            old(self)@.entries.contains_key(parent as Id) ==> old(self)@.entries[parent as Id].leases < u64::MAX,
        ensures
            final(self).wf(),
            match placed(old(self)@, inode, parent, directory) {
                Ok(after) => result is Ok && final(self)@ == after,
                Err(error) => result == Err::<(), ViewError>(error) && final(self)@ == old(self)@,
            },
    {
        if let Some(error) = self.refusal(inode, parent) {
            return Err(error);
        }
        let ghost start = self@;
        let ghost id = inode as Id;
        proof {
            placing_keeps_the_tree_sound(start, inode, parent, directory);
            lemma_children_bound(start.entries, parent);
            lemma_not_own_parent(start, inode, parent);
        }
        match self.get(inode) {
            Some(before) => {
                proof {
                    assert(start.entries.contains_key(before.parent as Id));
                    let was = children_of(start.entries, before.parent);
                    vstd::set_lib::lemma_len_subset(was, start.entries.dom());
                    assert(was.contains(id));
                    if was.len() == 0 {
                        assert(was =~= Set::<Id>::empty());
                    }
                }
                self.count_child(before.parent, false);
                if let Some(residence) = self.get(inode) {
                    let mut next = residence;
                    next.parent = parent;
                    next.directory = directory;
                    self.entries.put(inode as Id, next);
                }
                self.count_child(parent, true);
            },
            None => {
                self.generation = self.generation + 1;
                self.entries.put(
                    inode as Id,
                    Residence {
                        parent,
                        directory,
                        generation: self.generation,
                        queued: false,
                        kernel: 0,
                        quarantine: false,
                        leases: 0,
                        children: 0,
                    },
                );
                self.count_child(parent, true);
            },
        }
        let ghost middle = self@;
        assert(middle.entries =~= seated(start, inode, parent, directory));
        self.lease(inode);
        self.lease(parent);
        proof {
            assert(lined_but(self@, inode)) by {
                assert forall|k: Id| #[trigger] self@.entries.contains_key(k) && k != inode implies start.entries.contains_key(
                    k,
                ) && self@.entries[k].kernel == start.entries[k].kernel && self@.entries[k].quarantine
                    == start.entries[k].quarantine && self@.entries[k].queued
                    == start.entries[k].queued && self@.entries[k].generation
                    == start.entries[k].generation by {
                    if start.entries.contains_key(id) {
                        assert(start.entries.contains_key(start.entries[id].parent as Id));
                    }
                }
            }
            lemma_lined_up(self@, inode);
        }
        self.line_up(inode);
        proof {
            assert(self@ == placed(start, inode, parent, directory)->Ok_0);
            assert(self@.entries.dom() =~= middle.entries.dom());
            lemma_same_shape(middle.entries, self@.entries);
        }
        Ok(())
    }

    /// Hands another copy of a view out.
    pub fn hold(&mut self, inode: u64, parent: u64)
        requires
            old(self).wf(),
            inode != parent,
            old(self)@.entries.contains_key(inode as Id),
            old(self)@.entries.contains_key(parent as Id),
            old(self)@.entries[inode as Id].leases < u64::MAX,
            old(self)@.entries[parent as Id].leases < u64::MAX,
        ensures
            final(self).wf(),
            final(self)@ == (ResidencyView {
                entries: leased(leased(old(self)@.entries, inode, 1), parent, 1),
                ..old(self)@
            }),
    {
        let ghost start = self@;
        self.lease(inode);
        self.lease(parent);
        proof {
            assert(self@.entries.dom() =~= start.entries.dom());
            lemma_same_shape(start.entries, self@.entries);
        }
    }

    /// Takes a copy of a view back that had this parent.
    pub fn release(&mut self, inode: u64, parent: u64)
        requires
            old(self).wf(),
            inode != parent,
            old(self)@.entries.contains_key(inode as Id),
            old(self)@.entries.contains_key(parent as Id),
            old(self)@.entries[inode as Id].leases > 0,
            old(self)@.entries[parent as Id].leases > 0,
        ensures
            final(self).wf(),
            final(self)@ == given_back(old(self)@, inode, parent),
    {
        let ghost start = self@;
        self.end_lease(inode);
        self.end_lease(parent);
        proof {
            assert(self@.entries.dom() =~= start.entries.dom());
            lemma_same_shape(start.entries, self@.entries);
        }
    }

    /// Counts a lookup of the kernel.
    pub fn acquire_lookup(&mut self, inode: u64) -> (result: Result<(), ViewError>)
        requires
            old(self).wf(),
        ensures
            final(self).wf(),
            (final(self)@, result) == looked_up(old(self)@, inode),
    {
        let ghost start = self@;
        match self.get(inode) {
            None => Err(ViewError::NotFound),
            Some(residence) => {
                let mut next = residence;
                if residence.kernel == u64::MAX {
                    next.quarantine = true;
                    self.entries.put(inode as Id, next);
                    proof {
                        assert(self@.entries.dom() =~= start.entries.dom());
                        lemma_same_shape(start.entries, self@.entries);
                    }
                    return Err(ViewError::References);
                }
                next.kernel = residence.kernel + 1;
                self.entries.put(inode as Id, next);
                proof {
                    assert(self@.entries.dom() =~= start.entries.dom());
                    lemma_same_shape(start.entries, self@.entries);
                }
                Ok(())
            },
        }
    }

    /// Whether nothing refers to a view.
    fn is_reclaimable(inode: u64, residence: &Residence) -> (free: bool)
        ensures
            free == reclaimable(inode, *residence),
    {
        inode != ROOT && residence.kernel == 0 && !residence.quarantine && residence.leases == 0
            && residence.children == 0
    }

    /// Drops a view that nothing refers to.
    fn reclaim(&mut self, inode: u64)
        requires
            sound(old(self)@.entries),
            lined_but(old(self)@, inode),
            old(self)@.entries.contains_key(inode as Id),
            reclaimable(inode, old(self)@.entries[inode as Id]),
        ensures
            final(self).wf(),
            final(self)@ == reclaimed(old(self)@, inode),
    {
        let ghost start = self@;
        proof {
            reclaiming_keeps_the_tree_sound(start, inode);
            let parent = start.entries[inode as Id].parent;
            assert(start.entries.contains_key(parent as Id));
            let was = children_of(start.entries, parent);
            vstd::set_lib::lemma_len_subset(was, start.entries.dom());
            assert(was.contains(inode as Id));
            if was.len() == 0 {
                assert(was =~= Set::<Id>::empty());
            }
        }
        if let Some(residence) = self.get(inode) {
            self.count_child(residence.parent, false);
            self.entries.take(inode as Id);
        }
    }

    /// Counts what the kernel forgot. A count that does not fit never frees a view: it
    /// would turn an error of accounting into a use after forgetting.
    pub fn forget(&mut self, inode: u64, count: u64) -> (outcome: Forgotten)
        requires
            old(self).wf(),
        ensures
            final(self).wf(),
            (final(self)@, outcome) == forgotten(old(self)@, inode, count),
    {
        if inode == ROOT || count == 0 {
            return Forgotten::Kept;
        }
        let ghost start = self@;
        match self.get(inode) {
            None => Forgotten::Inconsistent,
            Some(residence) => {
                let mut next = residence;
                if residence.kernel < count {
                    next.quarantine = true;
                    self.entries.put(inode as Id, next);
                    proof {
                        assert(self@.entries.dom() =~= start.entries.dom());
                        lemma_same_shape(start.entries, self@.entries);
                    }
                    return Forgotten::Inconsistent;
                }
                next.kernel = residence.kernel - count;
                self.entries.put(inode as Id, next);
                proof {
                    assert(self@.entries.dom() =~= start.entries.dom());
                    lemma_same_shape(start.entries, self@.entries);
                }
                if next.kernel != 0 {
                    return Forgotten::Kept;
                }
                if Self::is_reclaimable(inode, &next) {
                    self.reclaim(inode);
                    return Forgotten::Removed;
                }
                let ghost middle = self@;
                proof {
                    lemma_lined_up(middle, inode);
                }
                self.line_up(inode);
                proof {
                    assert(self@.entries.dom() =~= middle.entries.dom());
                    lemma_same_shape(middle.entries, self@.entries);
                }
                Forgotten::Kept
            },
        }
    }

    /// Reclaims views, looking at no more than `limit` candidates, and says which.
    pub fn collect(&mut self, limit: usize) -> (removed: Vec<u64>)
        requires
            old(self).wf(),
        ensures
            final(self).wf(),
            (final(self)@, removed@) == collected(
                old(self)@,
                old(self)@.candidates.len(),
                limit as nat,
            ),
    {
        let ghost start = self@;
        let ghost whole = collected(start, start.candidates.len(), limit as nat);
        let mut removed: Vec<u64> = Vec::new();
        let mut unchanged: usize = self.candidates.len();
        let mut left: usize = limit;
        proof {
            assert(removed@ + whole.1 =~= whole.1);
        }
        while left > 0 && unchanged > 0
            invariant
                self.wf(),
                whole.0 == collected(self@, unchanged as nat, left as nat).0,
                whole.1 == removed@ + collected(self@, unchanged as nat, left as nat).1,
            ensures
                self.wf(),
                whole.0 == self@,
                whole.1 == removed@,
            decreases left,
        {
            let ghost before = self@;
            match self.candidates.pop_front() {
                None => {
                    proof {
                        assert(removed@ + Seq::<u64>::empty() =~= removed@);
                    }
                    break;
                },
                Some((inode, generation)) => {
                    proof {
                        assert(self@.candidates =~= before.candidates.drop_first());
                        assert(before.candidates[0] == (inode, generation));
                        lemma_looked_at(before);
                    }
                    unchanged = unchanged - 1;
                    left = left - 1;
                    if let Some(residence) = self.get(inode) {
                        if residence.generation == generation {
                            let mut next = residence;
                            next.queued = false;
                            self.entries.put(inode as Id, next);
                            proof {
                                assert(self@.entries.dom() =~= before.entries.dom());
                                lemma_same_shape(before.entries, self@.entries);
                            }
                            if Self::is_reclaimable(inode, &next) {
                                let ghost tail = collected(
                                    reclaimed(self@, inode),
                                    self@.candidates.len(),
                                    left as nat,
                                ).1;
                                proof {
                                    assert(removed@ + (seq![inode] + tail) =~= removed@.push(inode)
                                        + tail);
                                }
                                self.reclaim(inode);
                                removed.push(inode);
                                unchanged = self.candidates.len();
                            } else if next.kernel == 0 {
                                let ghost middle = self@;
                                proof {
                                    lemma_lined_up(middle, inode);
                                }
                                self.line_up(inode);
                                proof {
                                    assert(self@.entries.dom() =~= middle.entries.dom());
                                    lemma_same_shape(middle.entries, self@.entries);
                                }
                            }
                        }
                    }
                },
            }
            proof {
                if left == 0 || unchanged == 0 {
                    assert(removed@ + Seq::<u64>::empty() =~= removed@);
                }
            }
        }
        proof {
            assert(removed@ + Seq::<u64>::empty() =~= removed@);
        }
        removed
    }
}

/// A view is never placed below itself.
proof fn lemma_not_own_parent(state: ResidencyView, inode: u64, parent: u64)
    requires
        place_refusal(state, inode, parent) is None,
    ensures
        inode != parent,
{
}

/// A collection never reclaims a view that the kernel, a copy or a view below refers
/// to, and never the root.
pub proof fn collections_spare_what_is_referred_to(
    state: ResidencyView,
    unchanged: nat,
    limit: nat,
    inode: u64,
)
    requires
        state.entries.contains_key(inode as Id),
        inode == ROOT || state.entries[inode as Id].kernel > 0
            || state.entries[inode as Id].quarantine || state.entries[inode as Id].leases > 0,
    ensures
        collected(state, unchanged, limit).0.entries.contains_key(inode as Id),
        !collected(state, unchanged, limit).1.contains(inode),
    decreases limit,
{
    if !(limit == 0 || unchanged == 0 || state.candidates.len() == 0) {
        let (at, generation) = state.candidates[0];
        let popped = ResidencyView { candidates: state.candidates.drop_first(), ..state };
        let left = (unchanged - 1) as nat;
        let rest = (limit - 1) as nat;
        if !state.entries.contains_key(at as Id) || state.entries[at as Id].generation
            != generation {
            collections_spare_what_is_referred_to(popped, left, rest, inode);
        } else {
            let residence = Residence { queued: false, ..state.entries[at as Id] };
            let seen = ResidencyView {
                entries: state.entries.insert(at as Id, residence),
                ..popped
            };
            if reclaimable(at, residence) {
                let next = reclaimed(seen, at);
                collections_spare_what_is_referred_to(
                    next,
                    popped.candidates.len(),
                    rest,
                    inode,
                );
                let others = collected(next, popped.candidates.len(), rest).1;
                assert forall|i: int| 0 <= i < (seq![at] + others).len() implies (seq![at]
                    + others)[i] != inode by {
                    if i > 0 {
                        assert((seq![at] + others)[i] == others[i - 1]);
                    }
                }
            } else if residence.kernel == 0 {
                collections_spare_what_is_referred_to(lined_up(seen, at), left, rest, inode);
            } else {
                collections_spare_what_is_referred_to(seen, left, rest, inode);
            }
        }
    }
}

/// A view is kept exactly while it is the root, the kernel remembers a lookup of it, its
/// count was inconsistent, or a copy or a view below it refers to it.
pub proof fn references_keep_views(inode: u64, residence: Residence)
    ensures
        !reclaimable(inode, residence) <==> inode == 1 || residence.kernel > 0
            || residence.quarantine || residence.leases > 0 || residence.children > 0,
{
}

/// A lookup counts once, for its view alone, and refers to nothing that is not there.
pub proof fn lookups_are_counted(state: ResidencyView, inode: u64, other: Id)
    ensures
        ({
            let (after, result) = looked_up(state, inode);
            let id = inode as Id;
            &&& !state.entries.contains_key(id) ==> result == Err::<(), ViewError>(
                ViewError::NotFound,
            ) && after == state
            &&& state.entries.contains_key(id) && state.entries[id].kernel < u64::MAX ==> {
                &&& result is Ok
                &&& after.entries[id].kernel == state.entries[id].kernel + 1
                &&& after.entries[id].leases == state.entries[id].leases
                &&& after.entries[id].parent == state.entries[id].parent
                &&& after.entries[id].quarantine == state.entries[id].quarantine
            }
            &&& state.entries.contains_key(id) && state.entries[id].kernel == u64::MAX ==> {
                &&& result == Err::<(), ViewError>(ViewError::References)
                &&& after.entries[id].quarantine
            }
            &&& other != id ==> after.entries.contains_key(other) == state.entries.contains_key(
                other,
            ) && (after.entries.contains_key(other) ==> after.entries[other]
                == state.entries[other])
        }),
{
}

/// Forgetting as many lookups as the kernel made undoes them, and the last one that goes
/// drops a view that nothing else refers to. A count that is too large frees nothing and
/// keeps the view for good; the root is never forgotten.
pub proof fn forgetting_undoes_lookups(state: ResidencyView, inode: u64, count: u64)
    requires
        sound(state.entries),
    ensures
        ({
            let (after, outcome) = forgotten(state, inode, count);
            let id = inode as Id;
            let residence = state.entries[id];
            &&& inode == 1 || count == 0 ==> outcome == Forgotten::Kept && after == state
            &&& inode != 1 && count > 0 && !state.entries.contains_key(id) ==> outcome
                == Forgotten::Inconsistent && after == state
            &&& inode != 1 && count > 0 && state.entries.contains_key(id) ==> {
                &&& residence.kernel < count ==> outcome == Forgotten::Inconsistent
                    && after.entries.contains_key(id) && after.entries[id].quarantine
                    && after.entries[id].kernel == residence.kernel
                &&& residence.kernel > count ==> outcome == Forgotten::Kept
                    && after.entries.contains_key(id) && after.entries[id].kernel
                    == residence.kernel - count
                &&& residence.kernel == count && !residence.quarantine && residence.leases == 0
                    && residence.children == 0 ==> outcome == Forgotten::Removed
                    && !after.entries.contains_key(id)
                &&& residence.kernel == count && (residence.quarantine || residence.leases > 0
                    || residence.children > 0) ==> outcome == Forgotten::Kept
                    && after.entries.contains_key(id) && after.entries[id].kernel == 0
                    && after.entries[id].leases == residence.leases
            }
        }),
{
}

/// A view that is placed stands below its parent, holds itself and its parent, and is found
/// by the next collections. A new one is told apart from every earlier one.
pub proof fn placed_views_hold_their_parent(
    state: ResidencyView,
    inode: u64,
    parent: u64,
    directory: bool,
)
    requires
        sound(state.entries),
        place_refusal(state, inode, parent) is None,
        state.entries.contains_key(inode as Id) ==> state.entries[inode as Id].leases < u64::MAX,
        state.entries[parent as Id].leases < u64::MAX,
    ensures
        ({
            let after = placed(state, inode, parent, directory)->Ok_0;
            let id = inode as Id;
            &&& placed(state, inode, parent, directory) is Ok
            &&& after.entries.contains_key(id)
            &&& after.entries[id].parent == parent
            &&& after.entries[id].directory == directory
            &&& after.entries[id].queued || after.entries[id].quarantine
            &&& after.entries[parent as Id].leases == state.entries[parent as Id].leases + 1
            &&& !state.entries.contains_key(id) ==> after.entries[id].leases == 1
                && after.entries[id].kernel == 0 && after.entries[id].generation
                == state.generation + 1 && after.generation == state.generation + 1
            &&& state.entries.contains_key(id) ==> after.entries[id].leases
                == state.entries[id].leases + 1 && after.entries[id].kernel
                == state.entries[id].kernel && after.entries[id].generation
                == state.entries[id].generation && after.generation == state.generation
        }),
{
    lemma_not_own_parent(state, inode, parent);
}

/// A copy that is given back undoes the copy that was handed out.
pub proof fn copies_are_given_back(state: ResidencyView, inode: u64, parent: u64)
    requires
        inode != parent,
        state.entries.contains_key(inode as Id),
        state.entries.contains_key(parent as Id),
        state.entries[inode as Id].leases < u64::MAX,
        state.entries[parent as Id].leases < u64::MAX,
    ensures
        ({
            let held = ResidencyView {
                entries: leased(leased(state.entries, inode, 1), parent, 1),
                ..state
            };
            &&& held.entries[inode as Id].leases == state.entries[inode as Id].leases + 1
            &&& held.entries[parent as Id].leases == state.entries[parent as Id].leases + 1
            &&& given_back(held, inode, parent) == state
        }),
{
    let held = ResidencyView {
        entries: leased(leased(state.entries, inode, 1), parent, 1),
        ..state
    };
    assert(given_back(held, inode, parent).entries =~= state.entries);
}

} // verus!
