//! The resolved views of a mount, and which of them a change of metadata makes stale.
use crate::filesystem::collection::{
    at_depth, at_or_above, collections_harm_nothing, depth_of, is_ancestor, refusals_are_exact,
};
use crate::filesystem::residency::{
    collected, forgotten, lemma_same_shape, lined_up, looked_up, placed, reclaimable, reclaimed,
    reclaiming_keeps_the_tree_sound, sound, Forgotten, Residence, Residency, ResidencyView,
    ViewError, ROOT,
};
use crate::journal::tables::{increasing, Table};
use crate::model::{Id, Node, NodeKind, Scope, ScopeView};
use crate::text::{comes_before, lemma_text_chain, lemma_text_order, text_less};
use vstd::prelude::*;

verus! {

/// How many index entries one batch looks at.
pub const ENTRIES: usize = 128;

/// How many bytes of names one batch copies.
pub const BYTES: usize = 65_536;

/// One resolved name: where it stands, and what it shows.
#[derive(Debug)]
pub struct ResolvedView {
    pub inode: u64,
    pub parent: u64,
    pub scope: Scope,
    pub node: Node,
    pub name: String,
    pub alias: Vec<(String, String)>,
    pub reference: bool,
    pub entry: Option<Node>,
    pub ancestry: Vec<(String, String)>,
}

/// One identity under which a view is found.
#[derive(Debug)]
pub struct IdentityKey {
    pub account: String,
    pub provider: String,
    pub collection: String,
    pub item: String,
    pub inode: u64,
}

/// The content of an identity.
pub struct IdentityKeyView {
    pub account: Seq<char>,
    pub provider: Seq<char>,
    pub collection: Seq<char>,
    pub item: Seq<char>,
    pub inode: u64,
}

impl View for IdentityKey {
    type V = IdentityKeyView;

    open spec fn view(&self) -> IdentityKeyView {
        IdentityKeyView {
            account: self.account@,
            provider: self.provider@,
            collection: self.collection@,
            item: self.item@,
            inode: self.inode,
        }
    }
}

impl Clone for IdentityKey {
    fn clone(&self) -> (copy: Self)
        ensures
            copy == *self,
    {
        IdentityKey {
            account: self.account.clone(),
            provider: self.provider.clone(),
            collection: self.collection.clone(),
            item: self.item.clone(),
            inode: self.inode,
        }
    }
}

/// The order of identities: field by field, texts in code point order.
pub open spec fn key_less(a: IdentityKeyView, b: IdentityKeyView) -> bool {
    if a.account != b.account {
        text_less(a.account, b.account)
    } else if a.provider != b.provider {
        text_less(a.provider, b.provider)
    } else if a.collection != b.collection {
        text_less(a.collection, b.collection)
    } else if a.item != b.item {
        text_less(a.item, b.item)
    } else {
        a.inode < b.inode
    }
}

/// The order of identities is total.
pub proof fn lemma_key_order(a: IdentityKeyView, b: IdentityKeyView)
    ensures
        !key_less(a, a),
        a != b ==> key_less(a, b) || key_less(b, a),
        key_less(a, b) ==> !key_less(b, a),
{
    lemma_text_order(a.account, b.account);
    lemma_text_order(a.provider, b.provider);
    lemma_text_order(a.collection, b.collection);
    lemma_text_order(a.item, b.item);
}

/// The order of identities is transitive.
pub proof fn lemma_key_transitive(a: IdentityKeyView, b: IdentityKeyView, c: IdentityKeyView)
    requires
        key_less(a, b),
        key_less(b, c),
    ensures
        key_less(a, c),
{
    lemma_text_chain(a.account, b.account, c.account);
    lemma_text_chain(a.provider, b.provider, c.provider);
    lemma_text_chain(a.collection, b.collection, c.collection);
    lemma_text_chain(a.item, b.item, c.item);
}

impl IdentityKey {
    /// Whether one identity comes before another.
    pub fn before(&self, other: &IdentityKey) -> (less: bool)
        ensures
            less == key_less(self@, other@),
    {
        if self.account != other.account {
            return comes_before(self.account.as_str(), other.account.as_str());
        }
        if self.provider != other.provider {
            return comes_before(self.provider.as_str(), other.provider.as_str());
        }
        if self.collection != other.collection {
            return comes_before(self.collection.as_str(), other.collection.as_str());
        }
        if self.item != other.item {
            return comes_before(self.item.as_str(), other.item.as_str());
        }
        self.inode < other.inode
    }
}

/// The identity of the node that a view shows.
pub open spec fn primary_key(view: ResolvedView) -> IdentityKeyView {
    IdentityKeyView {
        account: view.scope.account@,
        provider: view.scope.provider@,
        collection: view.scope.collection@,
        item: view.node.id@,
        inode: view.inode,
    }
}

/// The identity of the shortcut that a view was reached by.
pub open spec fn source_key(view: ResolvedView) -> Option<IdentityKeyView> {
    if view.entry is Some && view.alias@.len() > 0 {
        Some(
            IdentityKeyView {
                account: view.scope.account@,
                provider: view.scope.provider@,
                collection: view.alias@.last().0@,
                item: view.entry->0.id@,
                inode: view.inode,
            },
        )
    } else {
        None
    }
}

/// The view is found under this identity.
pub open spec fn found_under(view: ResolvedView, key: IdentityKeyView) -> bool {
    key == primary_key(view) || source_key(view) == Some(key)
}

/// The contents of some identities.
pub open spec fn key_views(keys: Seq<IdentityKey>) -> Seq<IdentityKeyView> {
    Seq::new(keys.len(), |i: int| keys[i]@)
}

/// The identities strictly increase.
pub open spec fn ordered_keys(keys: Seq<IdentityKey>) -> bool {
    forall|i: int, j: int|
        0 <= i < j < keys.len() ==> key_less((#[trigger] keys[i])@, (#[trigger] keys[j])@)
}

/// Identities in order.
#[derive(Debug)]
pub struct IdentityIndex {
    pub keys: Vec<IdentityKey>,
}

impl View for IdentityIndex {
    type V = Set<IdentityKeyView>;

    open spec fn view(&self) -> Set<IdentityKeyView> {
        Set::new(|key: IdentityKeyView| key_views(self.keys@).contains(key))
    }
}

impl IdentityIndex {
    /// The identities strictly increase.
    pub open spec fn wf(&self) -> bool {
        ordered_keys(self.keys@)
    }

    /// How many identities come before this one.
    fn place(&self, key: &IdentityKey) -> (place: usize)
        requires
            self.wf(),
        ensures
            place <= self.keys@.len(),
            forall|i: int| 0 <= i < place ==> key_less((#[trigger] self.keys@[i])@, key@),
            forall|i: int|
                place <= i < self.keys@.len() ==> !key_less((#[trigger] self.keys@[i])@, key@),
    {
        let mut low: usize = 0;
        let mut high: usize = self.keys.len();
        while low < high
            invariant
                self.wf(),
                low <= high <= self.keys@.len(),
                forall|i: int| 0 <= i < low ==> key_less((#[trigger] self.keys@[i])@, key@),
                forall|i: int|
                    high <= i < self.keys@.len() ==> !key_less((#[trigger] self.keys@[i])@, key@),
            decreases high - low,
        {
            let middle: usize = low + (high - low) / 2;
            if self.keys[middle].before(key) {
                proof {
                    assert forall|i: int| 0 <= i < middle + 1 implies key_less(
                        (#[trigger] self.keys@[i])@,
                        key@,
                    ) by {
                        if i < middle {
                            lemma_key_transitive(
                                self.keys@[i]@,
                                self.keys@[middle as int]@,
                                key@,
                            );
                        }
                    }
                }
                low = middle + 1;
            } else {
                proof {
                    assert forall|i: int| middle <= i < self.keys@.len() implies !key_less(
                        (#[trigger] self.keys@[i])@,
                        key@,
                    ) by {
                        if middle < i && key_less(self.keys@[i]@, key@) {
                            lemma_key_transitive(
                                self.keys@[middle as int]@,
                                self.keys@[i]@,
                                key@,
                            );
                        }
                    }
                }
                high = middle;
            }
        }
        low
    }

    /// Adds an identity.
    pub fn insert(&mut self, key: IdentityKey)
        requires
            old(self).wf(),
        ensures
            final(self).wf(),
            final(self)@ == old(self)@.insert(key@),
    {
        let place = self.place(&key);
        if place < self.keys.len() && !key.before(&self.keys[place]) {
            proof {
                lemma_key_order(key@, self.keys@[place as int]@);
                assert(key_views(self.keys@)[place as int] == key@);
                assert(key_views(self.keys@).contains(key@));
                assert(self@ =~= old(self)@.insert(key@));
            }
            return;
        }
        let ghost value = key@;
        self.keys.insert(place, key);
        proof {
            let before = old(self).keys@;
            let after = self.keys@;
            assert forall|i: int, j: int| 0 <= i < j < after.len() implies key_less(
                (#[trigger] after[i])@,
                (#[trigger] after[j])@,
            ) by {
                if j < place {
                    assert(key_less(before[i]@, before[j]@));
                } else if i < place && j == place {
                } else if i < place {
                    assert(key_less(before[i]@, before[j - 1]@));
                } else if i == place {
                    assert(key_less(value, before[place as int]@));
                    if j - 1 > place {
                        assert(key_less(before[place as int]@, before[j - 1]@));
                        lemma_key_transitive(value, before[place as int]@, before[j - 1]@);
                    }
                } else {
                    assert(key_less(before[i - 1]@, before[j - 1]@));
                }
            }
            assert forall|k: IdentityKeyView| #[trigger]
                self@.contains(k) <==> old(self)@.insert(value).contains(k) by {
                let was = key_views(before);
                let now = key_views(after);
                if was.contains(k) {
                    let i = choose|i: int| 0 <= i < was.len() && was[i] == k;
                    if i < place {
                        assert(now[i] == k);
                    } else {
                        assert(now[i + 1] == k);
                    }
                }
                assert(now[place as int] == value);
                if now.contains(k) && k != value {
                    let i = choose|i: int| 0 <= i < now.len() && now[i] == k;
                    if i < place {
                        assert(was[i] == k);
                    } else {
                        assert(was[i - 1] == k);
                    }
                }
            }
            assert(self@ =~= old(self)@.insert(value));
        }
    }

    /// Removes an identity, where it is there.
    pub fn remove(&mut self, key: &IdentityKey)
        requires
            old(self).wf(),
        ensures
            final(self).wf(),
            final(self)@ == old(self)@.remove(key@),
    {
        let place = self.place(key);
        if place < self.keys.len() && !key.before(&self.keys[place]) {
            proof {
                lemma_key_order(key@, self.keys@[place as int]@);
            }
            self.keys.remove(place);
            proof {
                let before = old(self).keys@;
                let after = self.keys@;
                assert(before[place as int]@ == key@);
                assert forall|i: int, j: int| 0 <= i < j < after.len() implies key_less(
                    (#[trigger] after[i])@,
                    (#[trigger] after[j])@,
                ) by {
                    let a = if i < place {
                        i
                    } else {
                        i + 1
                    };
                    let b = if j < place {
                        j
                    } else {
                        j + 1
                    };
                    assert(key_less(before[a]@, before[b]@));
                }
                assert forall|k: IdentityKeyView| #[trigger]
                    self@.contains(k) <==> old(self)@.remove(key@).contains(k) by {
                    let was = key_views(before);
                    let now = key_views(after);
                    if was.contains(k) && k != key@ {
                        let i = choose|i: int| 0 <= i < was.len() && was[i] == k;
                        if i < place {
                            assert(now[i] == k);
                        } else {
                            assert(now[i - 1] == k);
                        }
                    }
                    if now.contains(k) {
                        let i = choose|i: int| 0 <= i < now.len() && now[i] == k;
                        if i < place {
                            assert(was[i] == k);
                            assert(key_less(before[i]@, before[place as int]@));
                        } else {
                            assert(was[i + 1] == k);
                            assert(key_less(before[place as int]@, before[i + 1]@));
                        }
                        lemma_key_order(k, key@);
                    }
                }
                assert(self@ =~= old(self)@.remove(key@));
            }
        } else {
            proof {
                let keys = self.keys@;
                if key_views(keys).contains(key@) {
                    let i = choose|i: int|
                        0 <= i < key_views(keys).len() && key_views(keys)[i] == key@;
                    lemma_key_order(key@, key@);
                    assert(keys[i]@ == key@);
                    if i < place {
                        assert(key_less(keys[i]@, key@));
                    } else if i > place {
                        assert(key_less(keys[place as int]@, keys[i]@));
                        assert(key_less(key@, keys[place as int]@));
                        lemma_key_order(key@, keys[place as int]@);
                    }
                }
                assert(self@ =~= old(self)@.remove(key@));
            }
        }
    }
}

/// The resolved views of a mount.
pub struct NamespaceViews {
    pub residency: Residency,
    pub views: Table<ResolvedView>,
    pub index: IdentityIndex,
}

/// What the index of a mount holds.
pub struct NamespaceState {
    pub residency: ResidencyView,
    pub views: Map<Id, ResolvedView>,
    pub keys: Set<IdentityKeyView>,
}

impl View for NamespaceViews {
    type V = NamespaceState;

    open spec fn view(&self) -> NamespaceState {
        NamespaceState {
            residency: self.residency@,
            views: self.views@,
            keys: self.index@,
        }
    }
}

/// What keeps a view stands where the view does, and is a directory where the view is one.
pub open spec fn placed_as_shown(id: Id, view: ResolvedView, residence: Residence) -> bool {
    &&& residence.directory == (view.node.kind == NodeKind::Folder)
    &&& id != ROOT ==> residence.parent == view.parent
}

/// Every resident view is there, at its place and under exactly its identities.
pub open spec fn agrees(state: NamespaceState) -> bool {
    &&& state.views.dom() == state.residency.entries.dom()
    &&& forall|id: Id| #[trigger] state.views.contains_key(id) ==> state.views[id].inode == id
    &&& forall|id: Id| #[trigger]
        state.views.contains_key(id) ==> placed_as_shown(
            id,
            state.views[id],
            state.residency.entries[id],
        )
    &&& forall|key: IdentityKeyView| #[trigger]
        state.keys.contains(key) <==> (state.views.contains_key(key.inode as Id) && found_under(
            state.views[key.inode as Id],
            key,
        ))
}

/// The identities of a view.
fn keys_of(view: &ResolvedView) -> (keys: (IdentityKey, Option<IdentityKey>))
    ensures
        keys.0@ == primary_key(*view),
        match keys.1 {
            Some(key) => source_key(*view) == Some(key@),
            None => source_key(*view) is None,
        },
{
    let primary = IdentityKey {
        account: view.scope.account.clone(),
        provider: view.scope.provider.clone(),
        collection: view.scope.collection.clone(),
        item: view.node.id.clone(),
        inode: view.inode,
    };
    let source = match &view.entry {
        Some(entry) => {
            let length = view.alias.len();
            if length == 0 {
                None
            } else {
                Some(
                    IdentityKey {
                        account: view.scope.account.clone(),
                        provider: view.scope.provider.clone(),
                        collection: view.alias[length - 1].0.clone(),
                        item: entry.id.clone(),
                        inode: view.inode,
                    },
                )
            }
        },
        None => None,
    };
    (primary, source)
}

/// The views once one was placed.
pub open spec fn shown(state: NamespaceState, view: ResolvedView) -> Result<
    NamespaceState,
    ViewError,
> {
    match placed(
        state.residency,
        view.inode,
        view.parent,
        view.node.kind == NodeKind::Folder,
    ) {
        Err(error) => Err(error),
        Ok(residency) => {
            let views = state.views.insert(view.inode as Id, view);
            Ok(NamespaceState { residency, views, keys: all_keys(views) })
        },
    }
}

/// The identities of all views.
pub open spec fn all_keys(views: Map<Id, ResolvedView>) -> Set<IdentityKeyView> {
    Set::new(
        |key: IdentityKeyView|
            views.contains_key(key.inode as Id) && found_under(
                views[key.inode as Id],
                key,
            ),
    )
}

/// The views without some of them.
pub open spec fn gone(views: Map<Id, ResolvedView>, inodes: Seq<u64>) -> Map<Id, ResolvedView> {
    views.remove_keys(Set::new(|id: Id| id <= u64::MAX && inodes.contains(id as u64)))
}

impl NamespaceViews {
    /// The tree is sound, and the views agree with it.
    pub open spec fn wf(&self) -> bool {
        &&& self.residency.wf()
        &&& self.index.wf()
        &&& agrees(self@)
    }

    /// Only the root.
    pub fn new(root: ResolvedView) -> (views: Self)
        requires
            root.inode == ROOT,
        ensures
            views.wf(),
            views@.views == Map::<Id, ResolvedView>::empty().insert(ROOT as Id, root),
            views@.residency == (ResidencyView {
                entries: Map::<Id, Residence>::empty().insert(
                    ROOT as Id,
                    Residence {
                        parent: ROOT,
                        directory: root.node.kind == NodeKind::Folder,
                        generation: 0,
                        queued: false,
                        kernel: 0,
                        quarantine: false,
                        leases: 0,
                        children: 0,
                    },
                ),
                candidates: Seq::empty(),
                generation: 0,
            }),
            views@.keys == all_keys(views@.views),
    {
        let residency = Residency::new(root.node.kind == NodeKind::Folder);
        let mut index = IdentityIndex { keys: Vec::new() };
        let (primary, source) = keys_of(&root);
        proof {
            assert(index@ =~= Set::<IdentityKeyView>::empty());
        }
        index.insert(primary);
        if let Some(key) = source {
            index.insert(key);
        }
        let mut views: Table<ResolvedView> = Table::new();
        views.put(ROOT as Id, root);
        let all = NamespaceViews { residency, views, index };
        proof {
            assert(all@.views.dom() =~= all@.residency.entries.dom());
        }
        all
    }

    /// A view.
    pub fn get(&self, inode: u64) -> (view: Option<&ResolvedView>)
        ensures
            match view {
                Some(view) => self@.views.contains_key(inode as Id) && *view
                    == self@.views[inode as Id],
                None => !self@.views.contains_key(inode as Id),
            },
    {
        self.views.get(inode as Id)
    }

    /// How many views are resident.
    pub fn len(&self) -> (len: usize)
        ensures
            len == self@.views.len(),
    {
        self.views.len()
    }

    /// The view whose metadata an equal new view can share: the one with the least
    /// inode.
    pub fn donor(&self, scope: &Scope, node: &Node) -> (donor: Option<u64>)
        requires
            self.wf(),
        ensures
            match donor {
                Some(inode) => donates(self@.views, inode as Id, scope@, node@) && forall|id: Id|
                    donates(self@.views, id, scope@, node@) ==> inode <= id,
                None => forall|id: Id| !donates(self@.views, id, scope@, node@),
            },
    {
        let ids = self.views.ids();
        let mut i: usize = 0;
        while i < ids.len()
            invariant
                self.wf(),
                i <= ids@.len(),
                increasing(ids@),
                forall|id: Id| ids@.contains(id) <==> self@.views.contains_key(id),
                forall|j: int|
                    0 <= j < i ==> !donates(self@.views, #[trigger] ids@[j], scope@, node@),
            decreases ids@.len() - i,
        {
            if let Some(view) = self.views.get(ids[i]) {
                if view.scope.same(scope) && view.node.same(node) {
                    proof {
                        assert(ids@.contains(ids@[i as int]));
                        assert(self@.residency.entries.contains_key(ids@[i as int]));
                        assert forall|id: Id| donates(self@.views, id, scope@, node@) implies ids@[i as int]
                            <= id by {
                            assert(ids@.contains(id));
                            let j = choose|j: int| 0 <= j < ids@.len() && ids@[j] == id;
                        }
                    }
                    return Some(view.inode);
                }
            }
            i = i + 1;
        }
        proof {
            assert forall|id: Id| !donates(self@.views, id, scope@, node@) by {
                if donates(self@.views, id, scope@, node@) {
                    assert(ids@.contains(id));
                    let j = choose|j: int| 0 <= j < ids@.len() && ids@[j] == id;
                    assert(!donates(self@.views, ids@[j], scope@, node@));
                }
            }
        }
        None
    }

    /// Drops the identities of a view.
    fn unlist(&mut self, inode: u64)
        requires
            old(self).index.wf(),
        ensures
            final(self).index.wf(),
            final(self).residency == old(self).residency,
            final(self).views == old(self).views,
            forall|key: IdentityKeyView| #[trigger]
                final(self).index@.contains(key) <==> (old(self).index@.contains(key) && !(old(
                    self)@.views.contains_key(inode as Id) && found_under(
                    old(self)@.views[inode as Id],
                    key,
                ))),
    {
        let keys = match self.views.get(inode as Id) {
            Some(view) => Some(keys_of(view)),
            None => None,
        };
        if let Some((primary, source)) = keys {
            self.index.remove(&primary);
            if let Some(key) = source {
                self.index.remove(&key);
            }
        }
    }

    /// Shows a view, or the same view somewhere else, and hands a copy of it out. Every
    /// copy holds the view and its parent until it is given back.
    pub fn insert(&mut self, view: ResolvedView) -> (result: Result<(), ViewError>)
        requires
            old(self).wf(),
            old(self)@.views.contains_key(view.inode as Id) ==> old(
                self)@.residency.entries[view.inode as Id].leases < u64::MAX,
            old(self)@.views.contains_key(view.parent as Id) ==> old(
                self)@.residency.entries[view.parent as Id].leases < u64::MAX,
        ensures
            final(self).wf(),
            match shown(old(self)@, view) {
                Ok(after) => result is Ok && final(self)@ == after,
                Err(error) => result == Err::<(), ViewError>(error) && final(self)@ == old(self)@,
            },
    {
        let inode = view.inode;
        let ghost start = self@;
        if let Err(error) = self.residency.place(
            inode,
            view.parent,
            view.node.kind == NodeKind::Folder,
        ) {
            return Err(error);
        }
        assert(self.index@ == start.keys);
        self.unlist(inode);
        let ghost fewer = self.index@;
        let (primary, source) = keys_of(&view);
        self.index.insert(primary);
        if let Some(key) = source {
            self.index.insert(key);
        }
        self.views.put(inode as Id, view);
        proof {
            let after = shown(start, view)->Ok_0;
            lemma_same_members(start.residency, self@.residency, inode, view.parent);
            assert(self@.views == after.views);
            assert forall|key: IdentityKeyView| #[trigger]
                self@.keys.contains(key) <==> after.keys.contains(key) by {
                assert(self@.keys.contains(key) <==> (fewer.contains(key) || found_under(view, key)));
                assert(start.keys.contains(key) <==> (start.views.contains_key(key.inode as Id)
                    && found_under(start.views[key.inode as Id], key)));
                if start.views.contains_key(inode as Id) {
                    assert(start.views[inode as Id].inode == inode);
                }
            }
            assert(self@.keys =~= after.keys);
            assert(self@.views.dom() =~= self@.residency.entries.dom());
        }
        Ok(())
    }

    /// Hands another copy of a view out.
    pub fn hold(&mut self, inode: u64, parent: u64)
        requires
            old(self).wf(),
            inode != parent,
            old(self)@.views.contains_key(inode as Id),
            old(self)@.views.contains_key(parent as Id),
            old(self)@.residency.entries[inode as Id].leases < u64::MAX,
            old(self)@.residency.entries[parent as Id].leases < u64::MAX,
        ensures
            final(self).wf(),
            final(self)@ == (NamespaceState {
                residency: ResidencyView {
                    entries: crate::filesystem::residency::leased(
                        crate::filesystem::residency::leased(
                            old(self)@.residency.entries,
                            inode,
                            1,
                        ),
                        parent,
                        1,
                    ),
                    ..old(self)@.residency
                },
                ..old(self)@
            }),
    {
        self.residency.hold(inode, parent);
        proof {
            assert(self@.views.dom() =~= self@.residency.entries.dom());
        }
    }

    /// Takes a copy of a view back that had this parent.
    pub fn release(&mut self, inode: u64, parent: u64)
        requires
            old(self).wf(),
            inode != parent,
            old(self)@.views.contains_key(inode as Id),
            old(self)@.views.contains_key(parent as Id),
            old(self)@.residency.entries[inode as Id].leases > 0,
            old(self)@.residency.entries[parent as Id].leases > 0,
        ensures
            final(self).wf(),
            final(self)@ == (NamespaceState {
                residency: crate::filesystem::residency::given_back(
                    old(self)@.residency,
                    inode,
                    parent,
                ),
                ..old(self)@
            }),
    {
        self.residency.release(inode, parent);
        proof {
            assert(self@.views.dom() =~= self@.residency.entries.dom());
        }
    }

    /// Keeps a directory while something below it is listed without being resolved.
    pub fn protect(&mut self, inode: u64)
        requires
            old(self).wf(),
            old(self)@.views.contains_key(inode as Id),
            old(self)@.residency.entries[inode as Id].leases < u64::MAX,
        ensures
            final(self).wf(),
            final(self)@ == (NamespaceState {
                residency: ResidencyView {
                    entries: crate::filesystem::residency::leased(
                        old(self)@.residency.entries,
                        inode,
                        1,
                    ),
                    ..old(self)@.residency
                },
                ..old(self)@
            }),
    {
        self.residency.lease(inode);
        proof {
            assert(self@.views.dom() =~= self@.residency.entries.dom());
        }
    }

    /// What was listed below a directory is gone.
    pub fn unprotect(&mut self, inode: u64)
        requires
            old(self).wf(),
            old(self)@.views.contains_key(inode as Id),
            old(self)@.residency.entries[inode as Id].leases > 0,
        ensures
            final(self).wf(),
            final(self)@ == (NamespaceState {
                residency: ResidencyView {
                    entries: crate::filesystem::residency::leased(
                        old(self)@.residency.entries,
                        inode,
                        -1,
                    ),
                    ..old(self)@.residency
                },
                ..old(self)@
            }),
    {
        self.residency.end_lease(inode);
        proof {
            assert(self@.views.dom() =~= self@.residency.entries.dom());
        }
    }

    /// Counts a lookup of the kernel.
    pub fn acquire_lookup(&mut self, inode: u64) -> (result: Result<(), ViewError>)
        requires
            old(self).wf(),
        ensures
            final(self).wf(),
            final(self)@ == (NamespaceState {
                residency: looked_up(old(self)@.residency, inode).0,
                ..old(self)@
            }),
            result == looked_up(old(self)@.residency, inode).1,
    {
        let result = self.residency.acquire_lookup(inode);
        proof {
            assert(self@.views.dom() =~= self@.residency.entries.dom());
        }
        result
    }

    /// Counts what the kernel forgot. The answer is false where the count does not fit.
    pub fn forget(&mut self, inode: u64, count: u64) -> (consistent: bool)
        requires
            old(self).wf(),
        ensures
            final(self).wf(),
            consistent == (forgotten(old(self)@.residency, inode, count).1
                != Forgotten::Inconsistent),
            final(self)@.residency == forgotten(old(self)@.residency, inode, count).0,
            final(self)@.views == (if forgotten(old(self)@.residency, inode, count).1
                == Forgotten::Removed {
                old(self)@.views.remove(inode as Id)
            } else {
                old(self)@.views
            }),
    {
        let ghost start = self@;
        let outcome = self.residency.forget(inode, count);
        if outcome == Forgotten::Removed {
            self.unlist(inode);
            self.views.take(inode as Id);
        }
        proof {
            assert(self@.views.dom() =~= self@.residency.entries.dom()) by {
                let parent = start.residency.entries[inode as Id].parent;
                if outcome == Forgotten::Removed {
                    assert(start.residency.entries.contains_key(parent as Id));
                }
            }
            assert forall|key: IdentityKeyView| #[trigger]
                self@.keys.contains(key) <==> (self@.views.contains_key(key.inode as Id)
                    && found_under(self@.views[key.inode as Id], key)) by {
                assert(start.keys.contains(key) <==> (start.views.contains_key(key.inode as Id)
                    && found_under(start.views[key.inode as Id], key)));
                if outcome == Forgotten::Removed {
                    assert(start.views.contains_key(inode as Id));
                    assert(start.views[inode as Id].inode == inode);
                }
            }
        }
        outcome != Forgotten::Inconsistent
    }

    /// Reclaims views, looking at no more than `limit` candidates, and says how many.
    pub fn collect(&mut self, limit: usize) -> (removed: usize)
        requires
            old(self).wf(),
        ensures
            final(self).wf(),
            ({
                let (residency, inodes) = collected(
                    old(self)@.residency,
                    old(self)@.residency.candidates.len(),
                    limit as nat,
                );
                removed == inodes.len() && final(self)@.residency == residency && final(
                    self)@.views == gone(old(self)@.views, inodes)
            }),
    {
        let ghost start = self@;
        let removed = self.residency.collect(limit);
        let ghost residency = self.residency@;
        proof {
            lemma_collected_members(start.residency, start.residency.candidates.len(), limit as nat);
            let pair = collected(
                start.residency,
                start.residency.candidates.len(),
                limit as nat,
            );
            assert(pair.0 == residency && pair.1 == removed@);
            assert forall|id: Id| #[trigger] residency.entries.contains_key(id) <==> (
            start.residency.entries.contains_key(id) && !removed@.contains(id as u64)) by {
                assert(pair.0.entries.contains_key(id) == residency.entries.contains_key(id));
            }
            assert(gone(start.views, removed@.take(0)) =~= start.views);
            assert(self@.keys == start.keys);
            assert forall|key: IdentityKeyView| #[trigger]
                self@.keys.contains(key) <==> (self@.views.contains_key(key.inode as Id)
                    && found_under(self@.views[key.inode as Id], key)) by {
                assert(start.keys.contains(key) <==> (start.views.contains_key(key.inode as Id)
                    && found_under(start.views[key.inode as Id], key)));
            }
        }
        let mut i: usize = 0;
        while i < removed.len()
            invariant
                i <= removed@.len(),
                self.index.wf(),
                self.residency@ == residency,
                self.residency.wf(),
                agrees(start),
                forall|id: Id| #[trigger]
                    residency.entries.contains_key(id) <==> (start.residency.entries.contains_key(
                        id,
                    ) && !removed@.contains(id as u64)),
                (residency, removed@) == collected(
                    start.residency,
                    start.residency.candidates.len(),
                    limit as nat,
                ),
                forall|id: Id| #[trigger]
                    start.residency.entries.contains_key(id) ==> id <= u64::MAX,
                self@.views == gone(start.views, removed@.take(i as int)),
                forall|key: IdentityKeyView| #[trigger]
                    self@.keys.contains(key) <==> (self@.views.contains_key(key.inode as Id)
                        && found_under(self@.views[key.inode as Id], key)),
            decreases removed@.len() - i,
        {
            let ghost before = self@;
            self.unlist(removed[i]);
            self.views.take(removed[i] as Id);
            proof {
                let inode = removed@[i as int];
                let more = removed@.take(i + 1);
                assert(more =~= removed@.take(i as int).push(inode));
                assert forall|k: u64| more.contains(k) <==> (removed@.take(i as int).contains(k)
                    || k == inode) by {
                    crate::seqs::lemma_push_contains(removed@.take(i as int), inode);
                }
                assert(self@.views =~= gone(start.views, more));
                assert forall|key: IdentityKeyView| #[trigger]
                    self@.keys.contains(key) <==> (self@.views.contains_key(key.inode as Id)
                        && found_under(self@.views[key.inode as Id], key)) by {
                    assert(before.keys.contains(key) <==> (before.views.contains_key(
                        key.inode as Id,
                    ) && found_under(before.views[key.inode as Id], key)));
                    if before.views.contains_key(inode as Id) {
                        assert(start.views.contains_key(inode as Id));
                        assert(before.views[inode as Id].inode == inode);
                    }
                }
            }
            i = i + 1;
        }
        proof {
            assert(removed@.take(i as int) =~= removed@);
            assert forall|id: Id| self@.views.dom().contains(id)
                <==> self@.residency.entries.dom().contains(id) by {
                assert(residency.entries.contains_key(id) <==> (
                start.residency.entries.contains_key(id) && !removed@.contains(id as u64)));
                if start.views.contains_key(id) {
                    assert(start.residency.entries.contains_key(id));
                }
            }
            assert(self@.views.dom() =~= self@.residency.entries.dom());
            collections_harm_nothing(
                start.residency,
                start.residency.candidates.len(),
                limit as nat,
            );
            assert forall|id: Id| #[trigger] self@.views.contains_key(id) implies self@.views[id].inode
                == id && placed_as_shown(id, self@.views[id], self@.residency.entries[id]) by {
                assert(start.views.contains_key(id));
                assert(residency.entries.contains_key(id));
            }
        }
        removed.len()
    }
}

/// A view with this content.
pub open spec fn donates(
    views: Map<Id, ResolvedView>,
    id: Id,
    scope: ScopeView,
    node: crate::model::NodeView,
) -> bool {
    views.contains_key(id) && views[id].scope@ == scope && views[id].node@ == node
}

proof fn lemma_same_members(
    before: ResidencyView,
    after: ResidencyView,
    inode: u64,
    parent: u64,
)
    requires
        sound(before.entries),
        exists|directory: bool| #[trigger]
            placed(before, inode, parent, directory) == Ok::<ResidencyView, ViewError>(after),
    ensures
        after.entries.dom() == before.entries.dom().insert(inode as Id),
{
    let directory = choose|directory: bool| #[trigger]
        placed(before, inode, parent, directory) == Ok::<ResidencyView, ViewError>(after);
    assert(before.entries.contains_key(parent as Id));
    if before.entries.contains_key(inode as Id) {
        assert(before.entries.contains_key(before.entries[inode as Id].parent as Id));
    }
    assert(after.entries.dom() =~= before.entries.dom().insert(inode as Id));
}

/// A collection removes exactly the views that it names.
proof fn lemma_collected_members(state: ResidencyView, unchanged: nat, limit: nat)
    requires
        sound(state.entries),
    ensures
        forall|id: Id| #[trigger]
            collected(state, unchanged, limit).0.entries.contains_key(id) <==> (
            state.entries.contains_key(id) && !collected(state, unchanged, limit).1.contains(
                id as u64,
            )),
    decreases limit,
{
    let result = collected(state, unchanged, limit);
    if limit == 0 || unchanged == 0 || state.candidates.len() == 0 {
        assert(result.1.len() == 0);
    } else {
        let (at, generation) = state.candidates[0];
        let popped = ResidencyView { candidates: state.candidates.drop_first(), ..state };
        let left = (unchanged - 1) as nat;
        let rest = (limit - 1) as nat;
        if !state.entries.contains_key(at as Id) || state.entries[at as Id].generation
            != generation {
            lemma_collected_members(popped, left, rest);
            assert(result == collected(popped, left, rest));
        } else {
            let residence = Residence {
                queued: false,
                ..state.entries[at as Id]
            };
            let seen = ResidencyView {
                entries: state.entries.insert(at as Id, residence),
                ..popped
            };
            assert(seen.entries.dom() =~= state.entries.dom());
            lemma_same_shape(state.entries, seen.entries);
            if reclaimable(at, residence) {
                let next = reclaimed(seen, at);
                reclaiming_keeps_the_tree_sound(seen, at);
                lemma_collected_members(next, popped.candidates.len(), rest);
                let others = collected(next, popped.candidates.len(), rest).1;
                assert(seen.entries.contains_key(residence.parent as Id));
                assert forall|id: Id| #[trigger] result.0.entries.contains_key(id) <==> (
                state.entries.contains_key(id) && !result.1.contains(id as u64)) by {
                    if state.entries.contains_key(id) {
                        assert(id <= u64::MAX);
                    }
                    assert(result.1 == seq![at] + others);
                    if others.contains(id as u64) {
                        let i = choose|i: int| 0 <= i < others.len() && others[i] == id as u64;
                        assert(result.1[i + 1] == id as u64);
                    }
                    if result.1.contains(id as u64) && id as u64 != at {
                        let i = choose|i: int| 0 <= i < result.1.len() && result.1[i] == id as u64;
                        assert(others[i - 1] == id as u64);
                    }
                    assert(result.1[0] == at);
                }
            } else if residence.kernel == 0 {
                let lined = lined_up(seen, at);
                assert(lined.entries.dom() =~= seen.entries.dom());
                lemma_same_shape(seen.entries, lined.entries);
                lemma_collected_members(lined, left, rest);
                assert(result == collected(lined, left, rest));
                assert forall|id: Id| lined.entries.contains_key(id) == state.entries.contains_key(
                    id,
                ) by {
                    assert(lined.entries.dom().contains(id) == state.entries.dom().contains(id));
                }
            } else {
                lemma_collected_members(seen, left, rest);
                assert(result == collected(seen, left, rest));
                assert forall|id: Id| seen.entries.contains_key(id) == state.entries.contains_key(
                    id,
                ) by {
                    assert(seen.entries.dom().contains(id) == state.entries.dom().contains(id));
                }
            }
        }
    }
}

/// What is met so many steps above a view.
pub open spec fn above(views: Map<Id, ResolvedView>, at: u64, steps: nat) -> u64
    decreases steps,
{
    if steps == 0 || at == ROOT {
        at
    } else {
        above(views, views[at as Id].parent, (steps - 1) as nat)
    }
}

/// The root is met exactly so many steps above a view, and everything on the way is shown.
pub open spec fn hangs(views: Map<Id, ResolvedView>, at: u64, depth: nat) -> bool
    decreases depth,
{
    views.contains_key(at as Id) && if depth == 0 {
        at == ROOT
    } else {
        at != ROOT && hangs(views, views[at as Id].parent, (depth - 1) as nat)
    }
}

proof fn lemma_hangs(state: NamespaceState, at: u64, depth: nat)
    requires
        sound(state.residency.entries),
        agrees(state),
        state.views.contains_key(at as Id),
        at_depth(state.residency.entries, at, depth),
    ensures
        hangs(state.views, at, depth),
    decreases depth,
{
    let entries = state.residency.entries;
    assert(entries.dom().contains(at as Id));
    if depth > 0 {
        let up = entries[at as Id].parent;
        assert(entries.contains_key(up as Id));
        assert(state.views.dom().contains(up as Id));
        lemma_hangs(state, up, (depth - 1) as nat);
    }
}

proof fn lemma_hangs_above(views: Map<Id, ResolvedView>, at: u64, depth: nat, steps: nat)
    requires
        hangs(views, at, depth),
        steps <= depth,
    ensures
        hangs(views, above(views, at, steps), (depth - steps) as nat),
    decreases steps,
{
    if steps > 0 {
        lemma_hangs_above(views, views[at as Id].parent, (depth - 1) as nat, (steps - 1) as nat);
    }
}

proof fn lemma_hangs_once(views: Map<Id, ResolvedView>, at: u64, a: nat, b: nat)
    requires
        hangs(views, at, a),
        hangs(views, at, b),
    ensures
        a == b,
    decreases a,
{
    if a > 0 && b > 0 {
        lemma_hangs_once(views, views[at as Id].parent, (a - 1) as nat, (b - 1) as nat);
    }
}

/// Every view that is shown hangs below the root: its parents are shown, and going up meets
/// the root without meeting any view twice.
pub proof fn every_view_hangs_below_the_root(state: NamespaceState, at: u64) -> (depth: nat)
    requires
        sound(state.residency.entries),
        agrees(state),
        state.views.contains_key(at as Id),
    ensures
        hangs(state.views, at, depth),
        above(state.views, at, depth) == ROOT,
        state.views.contains_key(ROOT as Id),
        at != ROOT ==> state.views.contains_key(state.views[at as Id].parent as Id),
        forall|i: nat, j: nat|
            i < j <= depth ==> #[trigger] above(state.views, at, i) != #[trigger] above(
                state.views,
                at,
                j,
            ),
{
    let entries = state.residency.entries;
    assert(entries.dom().contains(at as Id));
    assert(state.views.dom().contains(ROOT as Id));
    let depth = depth_of(entries, at);
    lemma_hangs(state, at, depth);
    lemma_hangs_above(state.views, at, depth, depth);
    assert forall|i: nat, j: nat| i < j <= depth implies #[trigger] above(state.views, at, i)
        != #[trigger] above(state.views, at, j) by {
        lemma_hangs_above(state.views, at, depth, i);
        lemma_hangs_above(state.views, at, depth, j);
        if above(state.views, at, i) == above(state.views, at, j) {
            lemma_hangs_once(
                state.views,
                above(state.views, at, i),
                (depth - i) as nat,
                (depth - j) as nat,
            );
        }
    }
    depth
}

/// A view is another one or stands somewhere above it.
pub open spec fn stands_above(views: Map<Id, ResolvedView>, inode: u64, at: u64) -> bool {
    exists|steps: nat| #[trigger] above(views, at, steps) == inode
}

/// Showing a view is refused exactly where its inode is reserved, where its parent is not
/// shown or is no folder, where it is its own parent or stands above it, or where no more
/// views can be told apart.
pub proof fn views_are_refused_exactly(state: NamespaceState, view: ResolvedView)
    requires
        sound(state.residency.entries),
        agrees(state),
    ensures
        match shown(state, view) {
            Ok(_) => view.inode > ROOT && state.views.contains_key(view.parent as Id)
                && state.views[view.parent as Id].node.kind == NodeKind::Folder && !stands_above(
                state.views,
                view.inode,
                view.parent,
            ),
            Err(error) => error == (if view.inode <= ROOT {
                ViewError::Reserved
            } else if !state.views.contains_key(view.parent as Id) {
                ViewError::NotFound
            } else if state.views[view.parent as Id].node.kind != NodeKind::Folder {
                ViewError::NotDirectory
            } else if stands_above(state.views, view.inode, view.parent) {
                ViewError::Cycle
            } else {
                ViewError::Generations
            }) && (error == ViewError::Generations ==> state.residency.generation == u64::MAX),
        },
{
    let entries = state.residency.entries;
    refusals_are_exact(state.residency, view.inode, view.parent);
    assert(state.views.dom().contains(view.parent as Id) == entries.dom().contains(
        view.parent as Id,
    ));
    if state.views.contains_key(view.parent as Id) {
        let depth = every_view_hangs_below_the_root(state, view.parent);
        if is_ancestor(entries, view.inode, view.parent) {
            let steps = choose|steps: nat| at_or_above(entries, view.inode, view.parent, steps);
            lemma_above(state, view.inode, view.parent, depth, steps);
        }
        if stands_above(state.views, view.inode, view.parent) {
            let steps = choose|steps: nat| #[trigger]
                above(state.views, view.parent, steps) == view.inode;
            lemma_at_or_above(state, view.inode, view.parent, depth, steps);
        }
    }
}

proof fn lemma_above(state: NamespaceState, inode: u64, at: u64, depth: nat, steps: nat)
    requires
        agrees(state),
        hangs(state.views, at, depth),
        at_or_above(state.residency.entries, inode, at, steps),
    ensures
        stands_above(state.views, inode, at),
    decreases depth,
{
    if inode == at {
        assert(above(state.views, at, 0) == inode);
    } else {
        let up = state.views[at as Id].parent;
        assert(state.residency.entries[at as Id].parent == up);
        lemma_above(state, inode, up, (depth - 1) as nat, (steps - 1) as nat);
        let more = choose|more: nat| #[trigger] above(state.views, up, more) == inode;
        assert(above(state.views, at, more + 1) == inode);
    }
}

proof fn lemma_at_or_above(state: NamespaceState, inode: u64, at: u64, depth: nat, steps: nat)
    requires
        agrees(state),
        hangs(state.views, at, depth),
        above(state.views, at, steps) == inode,
    ensures
        is_ancestor(state.residency.entries, inode, at),
        at_or_above(state.residency.entries, inode, at, steps),
    decreases steps,
{
    if inode != at {
        let up = state.views[at as Id].parent;
        assert(state.residency.entries[at as Id].parent == up);
        lemma_at_or_above(state, inode, up, (depth - 1) as nat, (steps - 1) as nat);
    }
    assert(at_or_above(state.residency.entries, inode, at, steps));
}

/// A view is found under the identity of what it shows, and under that of the shortcut that
/// it was reached by, in the collection that the shortcut stands in. It is found under
/// nothing else.
pub proof fn views_are_found_under_their_identities(view: ResolvedView, key: IdentityKeyView)
    ensures
        found_under(view, key) <==> {
            &&& key.inode == view.inode
            &&& key.account == view.scope.account@
            &&& key.provider == view.scope.provider@
            &&& {
                ||| key.collection == view.scope.collection@ && key.item == view.node.id@
                ||| view.entry is Some && view.alias@.len() > 0 && key.item == view.entry->0.id@
                    && key.collection == view.alias@[view.alias@.len() - 1].0@
            }
        },
{
}

/// A view that is shown is there as it was given, and every other view stays.
pub proof fn shown_views_are_there(state: NamespaceState, view: ResolvedView, other: Id)
    requires
        shown(state, view) is Ok,
    ensures
        ({
            let after = shown(state, view)->Ok_0;
            &&& after.views.contains_key(view.inode as Id)
            &&& after.views[view.inode as Id] == view
            &&& other != view.inode ==> after.views.contains_key(other)
                == state.views.contains_key(other) && (after.views.contains_key(other)
                ==> after.views[other] == state.views[other])
        }),
{
}

/// A collection takes the views that it names, and no others.
pub proof fn collected_views_are_gone(views: Map<Id, ResolvedView>, inodes: Seq<u64>, inode: u64)
    ensures
        gone(views, inodes).contains_key(inode as Id) <==> views.contains_key(inode as Id)
            && !inodes.contains(inode),
        gone(views, inodes).contains_key(inode as Id) ==> gone(views, inodes)[inode as Id]
            == views[inode as Id],
{
}

} // verus!
