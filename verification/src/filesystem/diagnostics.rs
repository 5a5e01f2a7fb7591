//! What a mount reports of its views: how many the kernel refers to, how many copies or
//! views below them protect, and how far it went over its ceiling.
use crate::filesystem::residency::Residence;
use crate::filesystem::views::{key_less, key_views, lemma_key_order, NamespaceViews};
use crate::journal::tables::increasing;
use crate::model::Id;
use vstd::prelude::*;

verus! {

/// The views of which something holds.
pub open spec fn views_with(
    entries: Map<Id, Residence>,
    holds: spec_fn(Residence) -> bool,
) -> Set<Id> {
    entries.dom().filter(|id: Id| holds(entries[id]))
}

/// The kernel refers to the view.
pub open spec fn referenced() -> spec_fn(Residence) -> bool {
    |residence: Residence| residence.kernel > 0
}

/// A copy of the view, or a view below it, protects it.
pub open spec fn protected() -> spec_fn(Residence) -> bool {
    |residence: Residence| residence.leases > 0 || residence.children > 0
}

/// The kernel's count of the view was inconsistent.
pub open spec fn quarantined() -> spec_fn(Residence) -> bool {
    |residence: Residence| residence.quarantine
}

/// What is reported of the views of a mount.
#[derive(Debug, Clone, Copy, PartialEq, Eq, Structural)]
pub struct ViewDiagnostics {
    pub views: usize,
    pub kernel_referenced: usize,
    pub lease_protected: usize,
    pub quarantined: usize,
    pub candidates: usize,
    /// The identities under which the views are found.
    pub identities: usize,
}

/// One more identity is looked at.
proof fn lemma_one_more(
    entries: Map<Id, Residence>,
    ids: Seq<Id>,
    holds: spec_fn(Residence) -> bool,
    at: int,
)
    requires
        increasing(ids),
        0 <= at < ids.len(),
    ensures
        ({
            let seen = ids.take(at).to_set().filter(|id: Id| holds(entries[id]));
            let next = ids.take(at + 1).to_set().filter(|id: Id| holds(entries[id]));
            next.len() == seen.len() + (if holds(entries[ids[at]]) {
                1int
            } else {
                0int
            })
        }),
{
    let chosen = |id: Id| holds(entries[id]);
    let before = ids.take(at);
    let after = ids.take(at + 1);
    let seen = before.to_set();
    let next = after.to_set();
    vstd::seq_lib::seq_to_set_is_finite(before);
    assert(!before.contains(ids[at]));
    assert forall|id: Id| #[trigger] next.contains(id) <==> seen.insert(ids[at]).contains(id) by {
        if after.contains(id) {
            let k = choose|k: int| 0 <= k < after.len() && after[k] == id;
            if k < at {
                assert(before[k] == id);
            }
        }
        if before.contains(id) {
            let k = choose|k: int| 0 <= k < before.len() && before[k] == id;
            assert(after[k] == id);
        }
        assert(after[at] == ids[at]);
    }
    if holds(entries[ids[at]]) {
        assert(next.filter(chosen) =~= seen.filter(chosen).insert(ids[at]));
    } else {
        assert(next.filter(chosen) =~= seen.filter(chosen));
    }
}

impl NamespaceViews {
    /// What is reported of the views.
    pub fn diagnostics(&self) -> (report: ViewDiagnostics)
        requires
            self.wf(),
        ensures
            ({
                let entries = self@.residency.entries;
                &&& report.views == self@.views.len()
                &&& report.kernel_referenced == views_with(entries, referenced()).len()
                &&& report.lease_protected == views_with(entries, protected()).len()
                &&& report.quarantined == views_with(entries, quarantined()).len()
                &&& report.candidates == self@.residency.candidates.len()
                &&& report.identities == self@.keys.len()
            }),
    {
        let ids = self.residency.entries.ids();
        let ghost entries = self@.residency.entries;
        let mut kernel_referenced: usize = 0;
        let mut lease_protected: usize = 0;
        let mut quarantined_views: usize = 0;
        let mut i: usize = 0;
        proof {
            assert(ids@.take(0).to_set() =~= Set::<Id>::empty());
            assert(Set::<Id>::empty().filter(|id: Id| referenced()(entries[id])) =~= Set::empty());
            assert(Set::<Id>::empty().filter(|id: Id| protected()(entries[id])) =~= Set::empty());
            assert(Set::<Id>::empty().filter(|id: Id| quarantined()(entries[id])) =~= Set::empty());
        }
        while i < ids.len()
            invariant
                i <= ids@.len(),
                increasing(ids@),
                entries == self@.residency.entries,
                forall|k: int| 0 <= k < ids@.len() ==> entries.contains_key(#[trigger] ids@[k]),
                kernel_referenced <= i,
                lease_protected <= i,
                quarantined_views <= i,
                kernel_referenced == ids@.take(i as int).to_set().filter(
                    |id: Id| referenced()(entries[id]),
                ).len(),
                lease_protected == ids@.take(i as int).to_set().filter(
                    |id: Id| protected()(entries[id]),
                ).len(),
                quarantined_views == ids@.take(i as int).to_set().filter(
                    |id: Id| quarantined()(entries[id]),
                ).len(),
            decreases ids@.len() - i,
        {
            proof {
                lemma_one_more(entries, ids@, referenced(), i as int);
                lemma_one_more(entries, ids@, protected(), i as int);
                lemma_one_more(entries, ids@, quarantined(), i as int);
            }
            if let Some(residence) = self.residency.entries.get(ids[i]) {
                if residence.kernel > 0 {
                    kernel_referenced = kernel_referenced + 1;
                }
                if residence.leases > 0 || residence.children > 0 {
                    lease_protected = lease_protected + 1;
                }
                if residence.quarantine {
                    quarantined_views = quarantined_views + 1;
                }
            }
            i = i + 1;
        }
        proof {
            assert(ids@.take(i as int) =~= ids@);
            assert(ids@.to_set() =~= entries.dom());
            let keys = key_views(self.index.keys@);
            assert forall|a: int, b: int| 0 <= a < keys.len() && 0 <= b < keys.len() && a != b implies keys[a]
                != keys[b] by {
                lemma_key_order(keys[a], keys[b]);
                if a < b {
                    assert(key_less(self.index.keys@[a]@, self.index.keys@[b]@));
                } else {
                    assert(key_less(self.index.keys@[b]@, self.index.keys@[a]@));
                }
            }
            assert(keys.no_duplicates());
            keys.unique_seq_to_set();
            assert(self@.keys =~= keys.to_set());
        }
        ViewDiagnostics {
            views: self.len(),
            kernel_referenced,
            lease_protected,
            quarantined: quarantined_views,
            candidates: self.residency.candidates.len(),
            identities: self.index.keys.len(),
        }
    }
}

/// What a ceiling on the views of a mount has asked the kernel to drop, and the largest
/// excess that was seen.
#[derive(Debug, Clone, Copy, PartialEq, Eq, Structural)]
pub struct CeilingMetrics {
    pub asked: u64,
    pub max_over: u64,
}

impl CeilingMetrics {
    /// Nothing yet.
    pub fn new() -> (metrics: Self)
        ensures
            metrics == (CeilingMetrics { asked: 0, max_over: 0 }),
    {
        CeilingMetrics { asked: 0, max_over: 0 }
    }

    /// So many views are over the ceiling.
    pub fn observe(&mut self, over: u64)
        ensures
            final(self).asked == old(self).asked,
            final(self).max_over == (if over > old(self).max_over {
                over
            } else {
                old(self).max_over
            }),
    {
        if over > self.max_over {
            self.max_over = over;
        }
    }

    /// The kernel dropped so many entries. The counter turns over.
    pub fn count(&mut self, asked: u64)
        ensures
            final(self).asked == old(self).asked.wrapping_add(asked),
            final(self).max_over == old(self).max_over,
    {
        self.asked = self.asked.wrapping_add(asked);
    }
}

} // verus!
