//! A cache bounded by what its entries are charged. The entry that was used longest ago
//! leaves first.
use vstd::prelude::*;

verus! {

/// One entry and what it is charged.
#[derive(Debug)]
pub struct Cached<T> {
    pub id: u64,
    pub data: T,
    pub bytes: usize,
}

/// What some entries are charged together.
pub open spec fn charged<T>(entries: Seq<Cached<T>>) -> nat
    decreases entries.len(),
{
    if entries.len() == 0 {
        0
    } else {
        entries[0].bytes as nat + charged(entries.drop_first())
    }
}

/// The entry with this identity stands at this place.
pub open spec fn stands_at<T>(entries: Seq<Cached<T>>, id: u64, place: int) -> bool {
    &&& 0 <= place < entries.len()
    &&& entries[place].id == id
}

/// There is an entry with this identity.
pub open spec fn caches<T>(entries: Seq<Cached<T>>, id: u64) -> bool {
    exists|place: int| stands_at(entries, id, place)
}

/// The entries without the one with this identity.
pub open spec fn without<T>(entries: Seq<Cached<T>>, id: u64) -> Seq<Cached<T>> {
    if caches(entries, id) {
        entries.remove(choose|place: int| stands_at(entries, id, place))
    } else {
        entries
    }
}

/// The entries left when the oldest leave until so many more bytes fit.
pub open spec fn evicted<T>(entries: Seq<Cached<T>>, bytes: nat, limit: nat) -> Seq<Cached<T>>
    decreases entries.len(),
{
    if entries.len() == 0 || charged(entries) + bytes <= limit {
        entries
    } else {
        evicted(entries.drop_first(), bytes, limit)
    }
}

/// The entries after one was kept as the newest. One that is charged more than the
/// whole limit is not kept.
pub open spec fn kept<T>(entries: Seq<Cached<T>>, entry: Cached<T>, limit: nat) -> Seq<Cached<T>> {
    let rest = without(entries, entry.id);
    if entry.bytes > limit {
        rest
    } else {
        evicted(rest, entry.bytes as nat, limit).push(entry)
    }
}

/// No identity occurs twice.
pub open spec fn distinct<T>(entries: Seq<Cached<T>>) -> bool {
    forall|i: int, j: int|
        0 <= i < j < entries.len() ==> (#[trigger] entries[i]).id != (#[trigger] entries[j]).id
}

proof fn lemma_charged_push<T>(entries: Seq<Cached<T>>, entry: Cached<T>)
    ensures
        charged(entries.push(entry)) == charged(entries) + entry.bytes,
    decreases entries.len(),
{
    let more = entries.push(entry);
    if entries.len() == 0 {
        assert(more.drop_first() =~= Seq::<Cached<T>>::empty());
        assert(charged(more.drop_first()) == 0);
    } else {
        assert(more.drop_first() =~= entries.drop_first().push(entry));
        lemma_charged_push(entries.drop_first(), entry);
    }
}

proof fn lemma_charged_remove<T>(entries: Seq<Cached<T>>, place: int)
    requires
        0 <= place < entries.len(),
    ensures
        charged(entries.remove(place)) + entries[place].bytes == charged(entries),
    decreases entries.len(),
{
    if place == 0 {
        assert(entries.remove(0) =~= entries.drop_first());
    } else {
        assert(entries.remove(place).drop_first() =~= entries.drop_first().remove(place - 1));
        lemma_charged_remove(entries.drop_first(), place - 1);
    }
}

/// Whatever is kept, the charge of the whole cache stays within its limit.
pub proof fn the_cache_stays_within_its_limit<T>(
    entries: Seq<Cached<T>>,
    entry: Cached<T>,
    limit: nat,
)
    requires
        charged(entries) <= limit,
    ensures
        charged(kept(entries, entry, limit)) <= limit,
{
    let rest = without(entries, entry.id);
    if caches(entries, entry.id) {
        lemma_charged_remove(entries, choose|place: int| stands_at(entries, entry.id, place));
    }
    if entry.bytes <= limit {
        lemma_evicted_fits(rest, entry.bytes as nat, limit);
        lemma_charged_push(evicted(rest, entry.bytes as nat, limit), entry);
    }
}

proof fn lemma_evicted_fits<T>(entries: Seq<Cached<T>>, bytes: nat, limit: nat)
    requires
        bytes <= limit,
    ensures
        charged(evicted(entries, bytes, limit)) + bytes <= limit,
    decreases entries.len(),
{
    if entries.len() > 0 && charged(entries) + bytes > limit {
        lemma_evicted_fits(entries.drop_first(), bytes, limit);
    }
}

/// The cache, the entry that was used longest ago first.
#[derive(Debug)]
pub struct Cache<T> {
    pub entries: Vec<Cached<T>>,
    pub bytes: usize,
    pub limit: usize,
}

impl<T> View for Cache<T> {
    type V = Seq<Cached<T>>;

    open spec fn view(&self) -> Seq<Cached<T>> {
        self.entries@
    }
}

impl<T> Cache<T> {
    /// The count of bytes is that of the entries and within the limit.
    pub open spec fn wf(&self) -> bool {
        &&& self.bytes == charged(self@)
        &&& self.bytes <= self.limit
        &&& distinct(self@)
    }

    /// An empty cache.
    pub fn new(limit: usize) -> (cache: Self)
        ensures
            cache.wf(),
            cache.limit == limit,
            cache@ == Seq::<Cached<T>>::empty(),
    {
        Cache { entries: Vec::new(), bytes: 0, limit }
    }

    /// The place of an entry.
    fn place(&self, id: u64) -> (place: Option<usize>)
        ensures
            match place {
                Some(place) => stands_at(self@, id, place as int),
                None => !caches(self@, id),
            },
    {
        let mut i: usize = 0;
        while i < self.entries.len()
            invariant
                i <= self.entries@.len(),
                forall|j: int| 0 <= j < i ==> (#[trigger] self.entries@[j]).id != id,
            decreases self.entries@.len() - i,
        {
            if self.entries[i].id == id {
                return Some(i);
            }
            i = i + 1;
        }
        None
    }

    /// What is cached under an identity.
    pub fn peek(&self, id: u64) -> (data: Option<&T>)
        ensures
            match data {
                Some(data) => exists|place: int| #[trigger]
                    stands_at(self@, id, place) && *data == self@[place].data,
                None => !caches(self@, id),
            },
    {
        match self.place(id) {
            Some(place) => {
                proof {
                    assert(stands_at(self@, id, place as int));
                }
                Some(&self.entries[place].data)
            },
            None => None,
        }
    }

    /// Drops what is cached under an identity.
    pub fn drop_entry(&mut self, id: u64)
        requires
            old(self).wf(),
        ensures
            final(self).wf(),
            final(self).limit == old(self).limit,
            final(self)@ == without(old(self)@, id),
    {
        if let Some(place) = self.place(id) {
            proof {
                let chosen = choose|place: int| stands_at(self@, id, place);
                assert(stands_at(self@, id, place as int));
                assert(stands_at(self@, id, chosen));
                assert(chosen == place);
                lemma_charged_remove(self@, place as int);
            }
            let entry = self.entries.remove(place);
            self.bytes = self.bytes - entry.bytes;
        }
    }

    /// Keeps an entry as the newest.
    pub fn keep(&mut self, id: u64, data: T, bytes: usize)
        requires
            old(self).wf(),
        ensures
            final(self).wf(),
            final(self).limit == old(self).limit,
            final(self)@ == kept(
                old(self)@,
                (Cached { id, data, bytes }),
                old(self).limit as nat,
            ),
    {
        self.drop_entry(id);
        let ghost rest = self@;
        if bytes > self.limit {
            return;
        }
        proof {
            lemma_without_gone(old(self)@, id);
        }
        while self.bytes > self.limit - bytes
            invariant
                self.wf(),
                self.limit == old(self).limit,
                bytes <= self.limit,
                evicted(self@, bytes as nat, self.limit as nat) == evicted(
                    rest,
                    bytes as nat,
                    self.limit as nat,
                ),
                !caches(self@, id),
            decreases self@.len(),
        {
            let ghost before = self@;
            proof {
                if before.len() == 0 {
                    assert(charged(before) == 0);
                }
                lemma_charged_remove(before, 0);
                assert(before.remove(0) =~= before.drop_first());
            }
            let entry = self.entries.remove(0);
            self.bytes = self.bytes - entry.bytes;
            proof {
                if caches(self@, id) {
                    let place = choose|place: int| stands_at(self@, id, place);
                    assert(stands_at(before, id, place + 1));
                }
            }
        }
        proof {
            lemma_charged_push(self@, Cached { id, data, bytes });
            assert forall|i: int| 0 <= i < self@.len() implies (#[trigger] self@[i]).id != id by {
                if self@[i].id == id {
                    assert(stands_at(self@, id, i));
                }
            }
        }
        self.bytes = self.bytes + bytes;
        self.entries.push(Cached { id, data, bytes });
    }

    /// Makes an entry the newest one and says whether there is one.
    pub fn touch(&mut self, id: u64) -> (found: bool)
        requires
            old(self).wf(),
        ensures
            final(self).wf(),
            final(self).limit == old(self).limit,
            found == caches(old(self)@, id),
            found ==> exists|place: int| #[trigger]
                stands_at(old(self)@, id, place) && final(self)@ == kept(
                    old(self)@,
                    old(self)@[place],
                    old(self).limit as nat,
                ),
            !found ==> *final(self) == *old(self),
    {
        match self.place(id) {
            Some(place) => {
                proof {
                    let chosen = choose|place: int| stands_at(self@, id, place);
                    assert(stands_at(self@, id, place as int));
                    assert(stands_at(self@, id, chosen));
                    assert(chosen == place);
                    lemma_charged_remove(self@, place as int);
                    let rest = self@.remove(place as int);
                    lemma_charged_push(rest, self@[place as int]);
                    assert(without(self@, id) == rest);
                    assert(evicted(rest, self@[place as int].bytes as nat, self.limit as nat)
                        == rest);
                }
                let entry = self.entries.remove(place);
                self.entries.push(entry);
                true
            },
            None => false,
        }
    }

    /// Drops every entry and keeps nothing from then on.
    pub fn disable(&mut self)
        ensures
            final(self).wf(),
            final(self).limit == 0,
            final(self)@ == Seq::<Cached<T>>::empty(),
    {
        self.entries = Vec::new();
        self.bytes = 0;
        self.limit = 0;
    }
}

/// What was dropped is gone.
proof fn lemma_without_gone<T>(entries: Seq<Cached<T>>, id: u64)
    requires
        distinct(entries),
    ensures
        !caches(without(entries, id), id),
{
    if caches(entries, id) {
        let chosen = choose|place: int| stands_at(entries, id, place);
        let rest = without(entries, id);
        assert(stands_at(entries, id, chosen));
        if caches(rest, id) {
            let place = choose|place: int| stands_at(rest, id, place);
            if place < chosen {
                assert(entries[place].id == id);
            } else {
                assert(entries[place + 1].id == id);
            }
        }
    }
}

/// What is kept can be found, and it is the newest. Nothing leaves where everything fits, and
/// otherwise the entries that were used longest ago leave, no more of them than must.
pub proof fn the_oldest_leave_first<T>(entries: Seq<Cached<T>>, bytes: nat, limit: nat)
    ensures
        charged(entries) + bytes <= limit ==> evicted(entries, bytes, limit) == entries,
        ({
            let left = evicted(entries, bytes, limit);
            let gone = entries.len() - left.len();
            &&& 0 <= gone
            &&& left == entries.skip(gone)
            &&& gone > 0 ==> charged(entries.skip(gone - 1)) + bytes > limit
        }),
    decreases entries.len(),
{
    if entries.len() == 0 || charged(entries) + bytes <= limit {
        assert(entries.skip(0) =~= entries);
    } else {
        let rest = entries.drop_first();
        the_oldest_leave_first(rest, bytes, limit);
        let left = evicted(rest, bytes, limit);
        let gone = rest.len() - left.len();
        assert(rest.skip(gone) =~= entries.skip(gone + 1));
        if gone > 0 {
            assert(rest.skip(gone - 1) =~= entries.skip(gone));
        } else {
            assert(entries.skip(0) =~= entries);
        }
    }
}

/// An entry that fits is the newest once it was kept, and its earlier form is gone. One that
/// does not fit takes its earlier form away and nothing else.
pub proof fn kept_entries_are_the_newest<T>(
    entries: Seq<Cached<T>>,
    entry: Cached<T>,
    limit: nat,
    i: int,
)
    requires
        distinct(entries),
        0 <= i < entries.len(),
        entries[i].id != entry.id,
    ensures
        entry.bytes <= limit ==> {
            &&& kept(entries, entry, limit).len() > 0
            &&& kept(entries, entry, limit).last() == entry
        },
        entry.bytes > limit ==> !caches(kept(entries, entry, limit), entry.id) && kept(
            entries,
            entry,
            limit,
        ).contains(entries[i]),
        charged(entries) + entry.bytes <= limit ==> kept(entries, entry, limit).contains(entries[i]),
{
    lemma_without_gone(entries, entry.id);
    let rest = without(entries, entry.id);
    if caches(entries, entry.id) {
        let place = choose|place: int| stands_at(entries, entry.id, place);
        lemma_charged_remove(entries, place);
        if i < place {
            assert(rest[i] == entries[i]);
        } else {
            assert(rest[i - 1] == entries[i]);
        }
    }
    assert(rest.contains(entries[i]));
    if charged(entries) + entry.bytes <= limit {
        the_oldest_leave_first(rest, entry.bytes as nat, limit);
        let k = choose|k: int| 0 <= k < rest.len() && rest[k] == entries[i];
        assert(kept(entries, entry, limit)[k] == entries[i]);
    }
}

} // verus!
