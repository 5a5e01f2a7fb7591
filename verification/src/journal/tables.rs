//! Ordered tables keyed by identity, and the two relations of the write queue.
use crate::model::{Id, Scope, ScopeView};
use crate::text::{comes_before, lemma_text_chain, lemma_text_order, text_less};
use std::collections::BTreeMap;
use vstd::prelude::*;

verus! {

/// The identities strictly increase.
pub open spec fn increasing(ids: Seq<Id>) -> bool {
    forall|i: int, j: int| 0 <= i < j < ids.len() ==> ids[i] < ids[j]
}

/// Rows keyed by identity.
#[derive(Debug)]
pub struct Table<T> {
    pub rows: BTreeMap<Id, T>,
}

impl<T> View for Table<T> {
    type V = Map<Id, T>;

    open spec fn view(&self) -> Map<Id, T> {
        self.rows@
    }
}

impl<T> Table<T> {
    /// A table without rows.
    pub fn new() -> (table: Self)
        ensures
            table@ == Map::<Id, T>::empty(),
    {
        Table { rows: BTreeMap::new() }
    }

    /// The row with this identity.
    pub fn get(&self, id: Id) -> (row: Option<&T>)
        ensures
            match row {
                Some(value) => self@.contains_key(id) && *value == self@[id],
                None => !self@.contains_key(id),
            },
    {
        broadcast use vstd::laws_cmp::group_laws_cmp;

        self.rows.get(&id)
    }

    /// Whether there is a row with this identity.
    pub fn has(&self, id: Id) -> (found: bool)
        ensures
            found == self@.contains_key(id),
    {
        broadcast use vstd::laws_cmp::group_laws_cmp;

        self.rows.contains_key(&id)
    }

    /// Adds a row, or replaces the one with this identity.
    pub fn put(&mut self, id: Id, row: T)
        ensures
            final(self)@ == old(self)@.insert(id, row),
    {
        broadcast use vstd::laws_cmp::group_laws_cmp;

        self.rows.insert(id, row);
    }

    /// Removes the row with this identity, where there is one.
    pub fn take(&mut self, id: Id)
        ensures
            final(self)@ == old(self)@.remove(id),
    {
        broadcast use vstd::laws_cmp::group_laws_cmp;

        self.rows.remove(&id);
    }

    /// The number of rows.
    pub fn len(&self) -> (len: usize)
        ensures
            len == self@.len(),
    {
        broadcast use vstd::laws_cmp::group_laws_cmp;

        self.rows.len()
    }

    /// The identities in increasing order.
    pub fn ids(&self) -> (ids: Vec<Id>)
        ensures
            increasing(ids@),
            forall|id: Id| ids@.contains(id) <==> self@.contains_key(id),
            forall|i: int| 0 <= i < ids@.len() ==> self@.contains_key(#[trigger] ids@[i]),
            ids@.len() == self@.len(),
            self@.dom().finite(),
    {
        broadcast use vstd::laws_cmp::group_laws_cmp;

        let table = &self.rows;
        let mut ids: Vec<Id> = Vec::new();
        let ghost order = vstd::std_specs::iter::IteratorSpec::remaining(
            &vstd::std_specs::btree::spec_keys_iter(table),
        );
        for id in keys: table.keys()
            invariant
                keys.seq() == order,
                ids@.len() == keys.index(),
                forall|i: int| 0 <= i < ids@.len() ==> ids@[i] == *order[i],
        {
            ids.push(*id);
        }
        proof {
            assert(ids@ =~= order.unref());
            assert(order.unref().to_set() == table@.dom());
            assert forall|id: Id| ids@.contains(id) <==> table@.contains_key(id) by {
                assert(ids@.to_set().contains(id) <==> ids@.contains(id));
            }
            assert(vstd::std_specs::btree::increasing_seq(order));
            assert forall|i: int, j: int| 0 <= i < j < ids@.len() implies ids@[i] < ids@[j] by {
                assert(vstd::std_specs::cmp::OrdSpec::cmp_spec(&order[i], &order[j]) is Less);
            }
            assert forall|i: int| 0 <= i < ids@.len() implies table@.contains_key(
                #[trigger] ids@[i],
            ) by {
                assert(ids@.contains(ids@[i]));
            }
        }
        ids
    }
}

impl<T: Clone> Table<T> {
    /// A table with the same rows.
    pub fn copy(&self) -> (table: Self)
        ensures
            table@ == self@,
    {
        Table { rows: self.rows.clone() }
    }
}

/// A thing that two queued operations may not touch at the same time.
#[derive(Debug)]
pub enum Resource {
    /// A provider item.
    Item { scope: Scope, item: String },
    /// A name below a parent, in lower case. This is a conservative exclusion,
    /// not a statement about which names a provider tells apart.
    Name { scope: Scope, parent: String, name: String },
}

/// The content of a resource.
pub enum ResourceView {
    Item { scope: ScopeView, item: Seq<char> },
    Name { scope: ScopeView, parent: Seq<char>, name: Seq<char> },
}

impl View for Resource {
    type V = ResourceView;

    open spec fn view(&self) -> ResourceView {
        match self {
            Resource::Item { scope, item } => ResourceView::Item { scope: scope@, item: item@ },
            Resource::Name { scope, parent, name } => ResourceView::Name {
                scope: scope@,
                parent: parent@,
                name: name@,
            },
        }
    }
}

impl Clone for Resource {
    fn clone(&self) -> (copy: Self)
        ensures
            copy == *self,
    {
        match self {
            Resource::Item { scope, item } => Resource::Item {
                scope: scope.clone(),
                item: item.clone(),
            },
            Resource::Name { scope, parent, name } => Resource::Name {
                scope: scope.clone(),
                parent: parent.clone(),
                name: name.clone(),
            },
        }
    }
}

/// The scope that a resource belongs to.
pub open spec fn resource_scope(resource: ResourceView) -> ScopeView {
    match resource {
        ResourceView::Item { scope, .. } => scope,
        ResourceView::Name { scope, .. } => scope,
    }
}

/// The order of scopes: field by field, texts in code point order.
pub open spec fn scope_less(a: ScopeView, b: ScopeView) -> bool {
    if a.account != b.account {
        text_less(a.account, b.account)
    } else if a.provider != b.provider {
        text_less(a.provider, b.provider)
    } else {
        text_less(a.collection, b.collection)
    }
}

/// The order of resources: by scope, items before names, then field by field.
pub open spec fn resource_less(a: ResourceView, b: ResourceView) -> bool {
    if resource_scope(a) != resource_scope(b) {
        scope_less(resource_scope(a), resource_scope(b))
    } else {
        match (a, b) {
            (ResourceView::Item { item, .. }, ResourceView::Item { item: other, .. }) => text_less(
                item,
                other,
            ),
            (ResourceView::Item { .. }, ResourceView::Name { .. }) => true,
            (ResourceView::Name { .. }, ResourceView::Item { .. }) => false,
            (
                ResourceView::Name { parent, name, .. },
                ResourceView::Name { parent: other_parent, name: other_name, .. },
            ) => if parent != other_parent {
                text_less(parent, other_parent)
            } else {
                text_less(name, other_name)
            },
        }
    }
}

/// The order of resources is total.
pub proof fn lemma_resource_order(a: ResourceView, b: ResourceView)
    ensures
        !resource_less(a, a),
        a != b ==> resource_less(a, b) || resource_less(b, a),
        resource_less(a, b) ==> !resource_less(b, a),
{
    let (x, y) = (resource_scope(a), resource_scope(b));
    lemma_text_order(x.account, y.account);
    lemma_text_order(x.provider, y.provider);
    lemma_text_order(x.collection, y.collection);
    match (a, b) {
        (ResourceView::Item { item, .. }, ResourceView::Item { item: other, .. }) => {
            lemma_text_order(item, other);
        },
        (
            ResourceView::Name { parent, name, .. },
            ResourceView::Name { parent: other_parent, name: other_name, .. },
        ) => {
            lemma_text_order(parent, other_parent);
            lemma_text_order(name, other_name);
        },
        (ResourceView::Item { item, .. }, _) => {
            lemma_text_order(item, item);
        },
        (ResourceView::Name { name, .. }, _) => {
            lemma_text_order(name, name);
        },
    }
}

/// The order of resources is transitive.
pub proof fn lemma_resource_transitive(a: ResourceView, b: ResourceView, c: ResourceView)
    requires
        resource_less(a, b),
        resource_less(b, c),
    ensures
        resource_less(a, c),
{
    let (x, y, z) = (resource_scope(a), resource_scope(b), resource_scope(c));
    lemma_text_chain(x.account, y.account, z.account);
    lemma_text_chain(x.provider, y.provider, z.provider);
    lemma_text_chain(x.collection, y.collection, z.collection);
    match (a, b, c) {
        (
            ResourceView::Item { item: p, .. },
            ResourceView::Item { item: q, .. },
            ResourceView::Item { item: r, .. },
        ) => {
            lemma_text_chain(p, q, r);
        },
        (
            ResourceView::Name { parent: p, name: u, .. },
            ResourceView::Name { parent: q, name: v, .. },
            ResourceView::Name { parent: r, name: w, .. },
        ) => {
            lemma_text_chain(p, q, r);
            lemma_text_chain(u, v, w);
        },
        _ => {},
    }
}

/// Whether one scope comes before another.
fn scope_before(a: &Scope, b: &Scope) -> (less: bool)
    ensures
        less == scope_less(a@, b@),
{
    if a.account != b.account {
        return comes_before(a.account.as_str(), b.account.as_str());
    }
    if a.provider != b.provider {
        return comes_before(a.provider.as_str(), b.provider.as_str());
    }
    comes_before(a.collection.as_str(), b.collection.as_str())
}

impl Resource {
    /// The scope that the resource belongs to.
    pub fn scope(&self) -> (scope: &Scope)
        ensures
            scope@ == resource_scope(self@),
    {
        match self {
            Resource::Item { scope, .. } => scope,
            Resource::Name { scope, .. } => scope,
        }
    }

    /// Whether one resource comes before another.
    pub fn before(&self, other: &Resource) -> (less: bool)
        ensures
            less == resource_less(self@, other@),
    {
        if !self.scope().same(other.scope()) {
            return scope_before(self.scope(), other.scope());
        }
        match (self, other) {
            (Resource::Item { item, .. }, Resource::Item { item: other, .. }) => comes_before(
                item.as_str(),
                other.as_str(),
            ),
            (Resource::Item { .. }, Resource::Name { .. }) => true,
            (Resource::Name { .. }, Resource::Item { .. }) => false,
            (
                Resource::Name { parent, name, .. },
                Resource::Name { parent: other_parent, name: other_name, .. },
            ) => {
                if *parent != *other_parent {
                    return comes_before(parent.as_str(), other_parent.as_str());
                }
                comes_before(name.as_str(), other_name.as_str())
            },
        }
    }

    /// Equality by content.
    pub fn same(&self, other: &Resource) -> (same: bool)
        ensures
            same == (self@ == other@),
    {
        match (self, other) {
            (
                Resource::Item { scope, item },
                Resource::Item { scope: other_scope, item: other_item },
            ) => scope.same(other_scope) && *item == *other_item,
            (
                Resource::Name { scope, parent, name },
                Resource::Name { scope: other_scope, parent: other_parent, name: other_name },
            ) => scope.same(other_scope) && *parent == *other_parent && *name == *other_name,
            _ => false,
        }
    }
}

/// Which operations claim which resources.
#[derive(Debug)]
pub struct ResourceTable {
    pub rows: Vec<(Id, Resource)>,
}

/// The claims that a sequence of rows holds.
pub open spec fn claims(rows: Seq<(Id, Resource)>) -> Set<(Id, ResourceView)> {
    Set::new(
        |claim: (Id, ResourceView)|
            exists|i: int| #![trigger rows[i]] 0 <= i < rows.len() && (rows[i].0, rows[i].1@) == claim,
    )
}

impl View for ResourceTable {
    type V = Set<(Id, ResourceView)>;

    open spec fn view(&self) -> Set<(Id, ResourceView)> {
        claims(self.rows@)
    }
}

/// Adding a row adds its claim.
proof fn lemma_claims_push(rows: Seq<(Id, Resource)>, row: (Id, Resource))
    ensures
        claims(rows.push(row)) == claims(rows).insert((row.0, row.1@)),
{
    let more = rows.push(row);
    assert forall|claim: (Id, ResourceView)|
        claims(more).contains(claim) <==> claims(rows).insert((row.0, row.1@)).contains(claim) by {
        if claims(rows).contains(claim) {
            let i = choose|i: int|
                #![trigger rows[i]]
                0 <= i < rows.len() && (rows[i].0, rows[i].1@) == claim;
            assert(more[i] == rows[i]);
        }
        if claim == (row.0, row.1@) {
            assert(more[rows.len() as int] == row);
        }
        if claims(more).contains(claim) {
            let i = choose|i: int|
                #![trigger more[i]]
                0 <= i < more.len() && (more[i].0, more[i].1@) == claim;
            if i < rows.len() {
                assert(rows[i] == more[i]);
            }
        }
    }
    assert(claims(more) =~= claims(rows).insert((row.0, row.1@)));
}

/// The claims left when one operation gives all of its claims up.
pub open spec fn without_claims(table: Set<(Id, ResourceView)>, id: Id) -> Set<(Id, ResourceView)> {
    table.filter(|claim: (Id, ResourceView)| claim.0 != id)
}

/// Both operations claim one resource.
pub open spec fn contend(table: Set<(Id, ResourceView)>, a: Id, b: Id) -> bool {
    exists|resource: ResourceView| #[trigger]
        table.contains((a, resource)) && table.contains((b, resource))
}

impl ResourceTable {
    /// No claims.
    pub fn new() -> (table: Self)
        ensures
            table@ == Set::<(Id, ResourceView)>::empty(),
    {
        let table = ResourceTable { rows: Vec::new() };
        proof {
            assert(table@ =~= Set::<(Id, ResourceView)>::empty());
        }
        table
    }

    /// A table with the same claims.
    pub fn copy(&self) -> (table: Self)
        ensures
            table@ == self@,
    {
        let mut rows: Vec<(Id, Resource)> = Vec::new();
        let mut i: usize = 0;
        while i < self.rows.len()
            invariant
                i <= self.rows@.len(),
                rows@ == self.rows@.subrange(0, i as int),
            decreases self.rows@.len() - i,
        {
            let row = (self.rows[i].0, self.rows[i].1.clone());
            rows.push(row);
            proof {
                assert(self.rows@.subrange(0, i + 1) =~= self.rows@.subrange(0, i as int).push(
                    self.rows@[i as int],
                ));
            }
            i = i + 1;
        }
        proof {
            assert(self.rows@ =~= self.rows@.subrange(0, i as int));
        }
        ResourceTable { rows }
    }

    /// Claims a resource; claiming it again changes nothing.
    pub fn insert(&mut self, id: Id, resource: Resource)
        ensures
            final(self)@ == old(self)@.insert((id, resource@)),
    {
        proof {
            lemma_claims_push(self.rows@, (id, resource));
        }
        let mut i: usize = 0;
        while i < self.rows.len()
            invariant
                i <= self.rows@.len(),
                self.rows@ == old(self).rows@,
            decreases self.rows@.len() - i,
        {
            if self.rows[i].0 == id && self.rows[i].1.same(&resource) {
                proof {
                    assert(self@.contains((id, resource@)));
                    assert(self@ =~= self@.insert((id, resource@)));
                }
                return;
            }
            i = i + 1;
        }
        self.rows.push((id, resource));
    }

    /// Gives up every claim of one operation.
    pub fn remove(&mut self, id: Id)
        ensures
            final(self)@ == without_claims(old(self)@, id),
    {
        let mut kept: Vec<(Id, Resource)> = Vec::new();
        let mut i: usize = 0;
        proof {
            assert(claims(Seq::<(Id, Resource)>::empty()) =~= Set::<(Id, ResourceView)>::empty());
            assert(self.rows@.subrange(0, 0) =~= Seq::<(Id, Resource)>::empty());
            assert(without_claims(Set::<(Id, ResourceView)>::empty(), id) =~= Set::<
                (Id, ResourceView),
            >::empty());
        }
        while i < self.rows.len()
            invariant
                i <= self.rows@.len(),
                self.rows@ == old(self).rows@,
                claims(kept@) == without_claims(claims(self.rows@.subrange(0, i as int)), id),
            decreases self.rows@.len() - i,
        {
            proof {
                let row = self.rows@[i as int];
                let before = self.rows@.subrange(0, i as int);
                assert(self.rows@.subrange(0, i + 1) =~= before.push(row));
                lemma_claims_push(before, row);
                lemma_claims_push(kept@, row);
                if row.0 != id {
                    assert(without_claims(claims(before).insert((row.0, row.1@)), id)
                        =~= without_claims(claims(before), id).insert((row.0, row.1@)));
                } else {
                    assert(without_claims(claims(before).insert((row.0, row.1@)), id)
                        =~= without_claims(claims(before), id));
                }
            }
            if self.rows[i].0 != id {
                let row = (self.rows[i].0, self.rows[i].1.clone());
                kept.push(row);
            }
            i = i + 1;
        }
        proof {
            assert(self.rows@ =~= self.rows@.subrange(0, i as int));
        }
        self.rows = kept;
    }

    /// Whether the two operations claim one resource.
    pub fn contend(&self, a: Id, b: Id) -> (both: bool)
        ensures
            both == contend(self@, a, b),
    {
        let mut i: usize = 0;
        while i < self.rows.len()
            invariant
                i <= self.rows@.len(),
                forall|k: int, l: int|
                    #![trigger self.rows@[k], self.rows@[l]]
                    0 <= k < i && 0 <= l < self.rows@.len() && self.rows@[k].0 == a
                        && self.rows@[l].0 == b ==> self.rows@[k].1@ != self.rows@[l].1@,
            decreases self.rows@.len() - i,
        {
            if self.rows[i].0 == a {
                let mut j: usize = 0;
                while j < self.rows.len()
                    invariant
                        i < self.rows@.len(),
                        j <= self.rows@.len(),
                        self.rows@[i as int].0 == a,
                        forall|l: int|
                            0 <= l < j && #[trigger] self.rows@[l].0 == b
                                ==> self.rows@[i as int].1@ != self.rows@[l].1@,
                    decreases self.rows@.len() - j,
                {
                    if self.rows[j].0 == b && self.rows[i].1.same(&self.rows[j].1) {
                        proof {
                            let resource = self.rows@[i as int].1@;
                            assert(self@.contains((a, resource)));
                            assert(self@.contains((b, resource)));
                        }
                        return true;
                    }
                    j = j + 1;
                }
            }
            i = i + 1;
        }
        proof {
            assert forall|resource: ResourceView| #[trigger]
                self@.contains((a, resource)) implies !self@.contains((b, resource)) by {
                if self@.contains((b, resource)) {
                    let k = choose|k: int|
                        #![trigger self.rows@[k]]
                        0 <= k < self.rows@.len() && (self.rows@[k].0, self.rows@[k].1@) == (
                            a,
                            resource,
                        );
                    let l = choose|l: int|
                        #![trigger self.rows@[l]]
                        0 <= l < self.rows@.len() && (self.rows@[l].0, self.rows@[l].1@) == (
                            b,
                            resource,
                        );
                    assert(self.rows@[k].1@ != self.rows@[l].1@);
                }
            }
        }
        false
    }
}

/// A relation between operations.
#[derive(Debug)]
pub struct Relation {
    pub rows: Vec<(Id, Id)>,
}

/// The pairs that a sequence of rows holds.
pub open spec fn pairs(rows: Seq<(Id, Id)>) -> Set<(Id, Id)> {
    rows.to_set()
}

impl View for Relation {
    type V = Set<(Id, Id)>;

    open spec fn view(&self) -> Set<(Id, Id)> {
        pairs(self.rows@)
    }
}

impl Relation {
    /// The empty relation.
    pub fn new() -> (relation: Self)
        ensures
            relation@ == Set::<(Id, Id)>::empty(),
    {
        let relation = Relation { rows: Vec::new() };
        proof {
            assert(relation@ =~= Set::<(Id, Id)>::empty());
        }
        relation
    }

    /// A relation with the same pairs.
    pub fn copy(&self) -> (relation: Self)
        ensures
            relation@ == self@,
    {
        let mut rows: Vec<(Id, Id)> = Vec::new();
        let mut i: usize = 0;
        while i < self.rows.len()
            invariant
                i <= self.rows@.len(),
                rows@ == self.rows@.subrange(0, i as int),
            decreases self.rows@.len() - i,
        {
            rows.push((self.rows[i].0, self.rows[i].1));
            proof {
                assert(self.rows@.subrange(0, i + 1) =~= self.rows@.subrange(0, i as int).push(
                    self.rows@[i as int],
                ));
            }
            i = i + 1;
        }
        proof {
            assert(self.rows@ =~= self.rows@.subrange(0, i as int));
        }
        Relation { rows }
    }

    /// Relates two operations.
    pub fn insert(&mut self, left: Id, right: Id)
        ensures
            final(self)@ == old(self)@.insert((left, right)),
    {
        proof {
            let more = self.rows@.push((left, right));
            assert forall|p: (Id, Id)|
                more.to_set().contains(p) <==> self.rows@.to_set().insert((left, right)).contains(
                    p,
                ) by {
                if self.rows@.contains(p) {
                    let i = choose|i: int| 0 <= i < self.rows@.len() && self.rows@[i] == p;
                    assert(more[i] == p);
                }
                if p == (left, right) {
                    assert(more[self.rows@.len() as int] == p);
                }
            }
            assert(more.to_set() =~= self.rows@.to_set().insert((left, right)));
        }
        self.rows.push((left, right));
    }

    /// What one operation is related to, in increasing order.
    pub fn of(&self, left: Id) -> (ids: Vec<Id>)
        ensures
            increasing(ids@),
            forall|right: Id| ids@.contains(right) <==> self@.contains((left, right)),
    {
        let mut found: Table<bool> = Table::new();
        let mut i: usize = 0;
        while i < self.rows.len()
            invariant
                i <= self.rows@.len(),
                forall|right: Id|
                    found@.contains_key(right) <==> self.rows@.subrange(0, i as int).contains(
                        (left, right),
                    ),
            decreases self.rows@.len() - i,
        {
            let ghost before = self.rows@.subrange(0, i as int);
            let ghost after = self.rows@.subrange(0, i + 1);
            proof {
                assert(after =~= before.push(self.rows@[i as int]));
                assert forall|p: (Id, Id)|
                    after.contains(p) <==> before.contains(p) || p == self.rows@[i as int] by {
                    if before.contains(p) {
                        let j = choose|j: int| 0 <= j < before.len() && before[j] == p;
                        assert(after[j] == p);
                    }
                    assert(after[i as int] == self.rows@[i as int]);
                }
            }
            if self.rows[i].0 == left {
                found.put(self.rows[i].1, true);
            }
            i = i + 1;
        }
        proof {
            assert(self.rows@ =~= self.rows@.subrange(0, i as int));
        }
        found.ids()
    }
}

} // verus!
