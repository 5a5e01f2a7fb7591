//! Power-of-two extents of a bounded file. A released extent joins its buddy, so that
//! small extents do not stand in the way of later large ones.
use vstd::arithmetic::power2::{
    lemma_pow2_adds, lemma_pow2_pos, lemma_pow2_strictly_increases, lemma_pow2_unfold, pow2,
};
use vstd::prelude::*;

verus! {

/// The smallest extent holds two to this power bytes.
pub const MIN_ORDER: u32 = 9;

/// The largest arena holds two to this power bytes.
pub const MAX_ORDER: u32 = 30;

/// An extent: it starts at `offset` and holds two to the power `order` bytes.
#[derive(Debug, Clone, Copy, PartialEq, Eq, Structural)]
pub struct Slot {
    pub offset: u32,
    pub order: u32,
}

/// The bytes of an extent of this order.
pub open spec fn extent(order: u32) -> int {
    pow2(order as nat) as int
}

/// The bytes of an extent of this order.
pub fn extent_bytes(order: u32) -> (bytes: u32)
    requires
        order <= MAX_ORDER,
    ensures
        bytes == extent(order),
        0 < bytes <= 0x4000_0000,
{
    proof {
        vstd::arithmetic::power2::lemma2_to64();
        if order < 30 {
            lemma_pow2_strictly_increases(order as nat, 30);
        }
        lemma_pow2_pos(order as nat);
        assert(1 * pow2(order as nat) == pow2(order as nat));
        vstd::bits::lemma_u32_shl_is_mul(1u32, order);
    }
    1u32 << order
}

/// Strictly increasing offsets.
#[derive(Debug)]
pub struct Offsets {
    pub items: Vec<u32>,
}

impl View for Offsets {
    type V = Set<u32>;

    open spec fn view(&self) -> Set<u32> {
        Set::new(|offset: u32| self.items@.contains(offset))
    }
}

impl Offsets {
    /// The offsets strictly increase.
    pub open spec fn wf(&self) -> bool {
        forall|i: int, j: int| 0 <= i < j < self.items@.len() ==> self.items@[i] < self.items@[j]
    }

    /// No offset.
    pub fn new() -> (offsets: Self)
        ensures
            offsets.wf(),
            offsets@ == Set::<u32>::empty(),
    {
        let offsets = Offsets { items: Vec::new() };
        proof {
            assert(offsets@ =~= Set::<u32>::empty());
        }
        offsets
    }

    /// Whether there is no offset.
    pub fn is_empty(&self) -> (empty: bool)
        ensures
            empty == (self@ == Set::<u32>::empty()),
            empty == (forall|offset: u32| !self@.contains(offset)),
    {
        if self.items.len() == 0 {
            proof {
                assert(self@ =~= Set::<u32>::empty());
            }
            true
        } else {
            proof {
                assert(self.items@.contains(self.items@[0]));
                assert(self@.contains(self.items@[0]));
            }
            false
        }
    }

    /// The number of offsets below `offset`.
    fn place(&self, offset: u32) -> (place: usize)
        requires
            self.wf(),
        ensures
            place <= self.items@.len(),
            forall|i: int| 0 <= i < place ==> self.items@[i] < offset,
            forall|i: int| place <= i < self.items@.len() ==> self.items@[i] >= offset,
    {
        let mut low: usize = 0;
        let mut high: usize = self.items.len();
        while low < high
            invariant
                self.wf(),
                low <= high <= self.items@.len(),
                forall|i: int| 0 <= i < low ==> self.items@[i] < offset,
                forall|i: int| high <= i < self.items@.len() ==> self.items@[i] >= offset,
            decreases high - low,
        {
            let middle: usize = low + (high - low) / 2;
            if self.items[middle] < offset {
                low = middle + 1;
            } else {
                high = middle;
            }
        }
        low
    }

    /// Adds an offset.
    pub fn insert(&mut self, offset: u32)
        requires
            old(self).wf(),
        ensures
            final(self).wf(),
            final(self)@ == old(self)@.insert(offset),
    {
        let place = self.place(offset);
        if place < self.items.len() && self.items[place] == offset {
            proof {
                assert(self.items@.contains(self.items@[place as int]));
                assert(self@ =~= old(self)@.insert(offset));
            }
            return;
        }
        self.items.insert(place, offset);
        proof {
            let before = old(self).items@;
            let after = self.items@;
            assert forall|value: u32| #[trigger]
                self@.contains(value) <==> old(self)@.insert(offset).contains(value) by {
                if before.contains(value) {
                    let i = choose|i: int| 0 <= i < before.len() && before[i] == value;
                    if i < place {
                        assert(after[i] == value);
                    } else {
                        assert(after[i + 1] == value);
                    }
                }
                assert(after[place as int] == offset);
                if after.contains(value) && value != offset {
                    let i = choose|i: int| 0 <= i < after.len() && after[i] == value;
                    if i < place {
                        assert(before[i] == value);
                    } else {
                        assert(before[i - 1] == value);
                    }
                }
            }
            assert(self@ =~= old(self)@.insert(offset));
        }
    }

    /// Takes the item at this place out.
    fn cut(&mut self, place: usize) -> (offset: u32)
        requires
            old(self).wf(),
            place < old(self).items@.len(),
        ensures
            final(self).wf(),
            offset == old(self).items@[place as int],
            old(self)@.contains(offset),
            final(self)@ == old(self)@.remove(offset),
    {
        let offset = self.items.remove(place);
        proof {
            let before = old(self).items@;
            let after = self.items@;
            assert(before.contains(before[place as int]));
            assert forall|value: u32| #[trigger]
                self@.contains(value) <==> old(self)@.remove(offset).contains(value) by {
                if before.contains(value) && value != offset {
                    let i = choose|i: int| 0 <= i < before.len() && before[i] == value;
                    if i < place {
                        assert(after[i] == value);
                    } else {
                        assert(after[i - 1] == value);
                    }
                }
                if after.contains(value) {
                    let i = choose|i: int| 0 <= i < after.len() && after[i] == value;
                    if i < place {
                        assert(before[i] == value);
                    } else {
                        assert(before[i + 1] == value);
                    }
                }
            }
            assert(self@ =~= old(self)@.remove(offset));
        }
        offset
    }

    /// Removes an offset and says whether it was there.
    pub fn remove(&mut self, offset: u32) -> (found: bool)
        requires
            old(self).wf(),
        ensures
            final(self).wf(),
            found == old(self)@.contains(offset),
            final(self)@ == old(self)@.remove(offset),
    {
        let place = self.place(offset);
        if place < self.items.len() && self.items[place] == offset {
            self.cut(place);
            return true;
        }
        proof {
            if self.items@.contains(offset) {
                let i = choose|i: int| 0 <= i < self.items@.len() && self.items@[i] == offset;
                assert(place <= i);
                assert(self.items@[place as int] >= offset);
                if place < i {
                    assert(self.items@[place as int] < self.items@[i]);
                }
            }
            assert(self@ =~= old(self)@.remove(offset));
        }
        false
    }

    /// Takes the least offset out.
    pub fn pop_first(&mut self) -> (first: Option<u32>)
        requires
            old(self).wf(),
        ensures
            final(self).wf(),
            match first {
                Some(offset) => is_least(old(self)@, offset) && final(self)@ == old(self)@.remove(
                    offset,
                ),
                None => old(self)@ == Set::<u32>::empty() && final(self)@ == old(self)@,
            },
    {
        if self.items.len() == 0 {
            proof {
                assert(self@ =~= Set::<u32>::empty());
            }
            return None;
        }
        proof {
            assert forall|other: u32| self@.contains(other) implies self.items@[0] <= other by {
                let i = choose|i: int| 0 <= i < self.items@.len() && self.items@[i] == other;
                if 0 < i {
                    assert(self.items@[0] < self.items@[i]);
                }
            }
        }
        Some(self.cut(0))
    }
}

/// The least member of a set.
pub open spec fn is_least(set: Set<u32>, offset: u32) -> bool {
    &&& set.contains(offset)
    &&& forall|other: u32| set.contains(other) ==> offset <= other
}

/// The free extents of each order, by offset.
pub open spec fn levels(free: Seq<Offsets>) -> Seq<Set<u32>> {
    Seq::new(free.len(), |i: int| free[i]@)
}

/// The extent is free.
pub open spec fn is_free(free: Seq<Set<u32>>, slot: Slot) -> bool {
    slot.order < free.len() && free[slot.order as int].contains(slot.offset)
}

/// The extent is free or live.
pub open spec fn held(free: Seq<Set<u32>>, live: Set<Slot>, slot: Slot) -> bool {
    is_free(free, slot) || live.contains(slot)
}

/// The extent lies in the arena, at a multiple of its own size.
pub open spec fn fits(arena: u32, slot: Slot) -> bool {
    &&& MIN_ORDER <= slot.order <= arena
    &&& slot.offset as int % extent(slot.order) == 0
    &&& slot.offset + extent(slot.order) <= extent(arena)
}

/// The two extents share no byte.
pub open spec fn apart(a: Slot, b: Slot) -> bool {
    a.offset + extent(a.order) <= b.offset || b.offset + extent(b.order) <= a.offset
}

/// The byte lies in the extent.
pub open spec fn covers(slot: Slot, byte: int) -> bool {
    slot.offset <= byte < slot.offset + extent(slot.order)
}

/// Some free or live extent holds the byte.
pub open spec fn covered(free: Seq<Set<u32>>, live: Set<Slot>, byte: int) -> bool {
    exists|slot: Slot| #[trigger] held(free, live, slot) && covers(slot, byte)
}

/// The other half of the extent of the next order.
pub open spec fn buddy(slot: Slot) -> Slot {
    if slot.offset as int % (2 * extent(slot.order)) == 0 {
        Slot { offset: (slot.offset + extent(slot.order)) as u32, order: slot.order }
    } else {
        Slot { offset: (slot.offset - extent(slot.order)) as u32, order: slot.order }
    }
}

/// The extent of the next order that an extent is half of.
pub open spec fn parent(slot: Slot) -> Slot {
    if slot.offset as int % (2 * extent(slot.order)) == 0 {
        Slot { offset: slot.offset, order: (slot.order + 1) as u32 }
    } else {
        Slot {
            offset: (slot.offset - extent(slot.order)) as u32,
            order: (slot.order + 1) as u32,
        }
    }
}

/// Free and live extents share no byte, hold every byte of the arena, and no two free
/// ones could be joined.
pub open spec fn partition(arena: u32, free: Seq<Set<u32>>, live: Set<Slot>) -> bool {
    &&& MIN_ORDER <= arena <= MAX_ORDER
    &&& free.len() == arena + 1
    &&& live.finite()
    &&& forall|slot: Slot| #[trigger] held(free, live, slot) ==> fits(arena, slot)
    &&& forall|a: Slot, b: Slot|
        #![trigger held(free, live, a), held(free, live, b)]
        held(free, live, a) && held(free, live, b) && a != b ==> apart(a, b)
    &&& forall|slot: Slot| #[trigger] is_free(free, slot) ==> !live.contains(slot)
    &&& forall|byte: int| 0 <= byte < extent(arena) ==> #[trigger] covered(free, live, byte)
    &&& forall|slot: Slot| #[trigger]
        is_free(free, slot) && slot.order < arena ==> !is_free(free, buddy(slot))
}

proof fn lemma_double(order: u32)
    requires
        order < MAX_ORDER,
    ensures
        extent((order + 1) as u32) == 2 * extent(order),
        extent(order) > 0,
{
    lemma_pow2_unfold((order + 1) as nat);
    lemma_pow2_pos(order as nat);
}

proof fn lemma_half_aligned(offset: int, half: int)
    by (nonlinear_arith)
    requires
        half > 0,
        offset % (2 * half) == 0,
    ensures
        offset % half == 0,
        (offset + half) % half == 0,
        (offset + half) % (2 * half) == half,
        (offset + 2 * half) % (2 * half) == 0,
{
    let q = offset / (2 * half);
    assert(offset == (2 * half) * q);
    assert(offset == half * (2 * q));
    assert(offset + half == half * (2 * q + 1));
    vstd::arithmetic::div_mod::lemma_mod_multiples_basic(2 * q, half);
    vstd::arithmetic::div_mod::lemma_mod_multiples_basic(2 * q + 1, half);
    vstd::arithmetic::div_mod::lemma_mod_multiples_basic(q + 1, 2 * half);
    assert(offset + 2 * half == (2 * half) * (q + 1));
    vstd::arithmetic::div_mod::lemma_fundamental_div_mod_converse(
        offset + half,
        2 * half,
        q,
        half,
    );
}

proof fn lemma_odd_half(offset: int, half: int)
    by (nonlinear_arith)
    requires
        half > 0,
        offset >= 0,
        offset % half == 0,
        offset % (2 * half) != 0,
    ensures
        (offset - half) % (2 * half) == 0,
        offset >= half,
{
    let q = offset / (2 * half);
    let r = offset % (2 * half);
    assert(offset == (2 * half) * q + r);
    assert(0 <= r < 2 * half);
    assert(r % half == 0) by {
        vstd::arithmetic::div_mod::lemma_mod_multiples_vanish(2 * q, r, half);
        assert(half * (2 * q) + r == offset);
    }
    assert(r == half) by {
        let k = r / half;
        assert(r == half * k);
        assert(k == 1);
    }
    assert(offset - half == (2 * half) * q);
    vstd::arithmetic::div_mod::lemma_mod_multiples_basic(q, 2 * half);
}

/// Taking a free extent into use.
proof fn lemma_take(arena: u32, free: Seq<Set<u32>>, live: Set<Slot>, slot: Slot)
    requires
        partition(arena, free, live),
        is_free(free, slot),
    ensures
        partition(
            arena,
            free.update(slot.order as int, free[slot.order as int].remove(slot.offset)),
            live.insert(slot),
        ),
{
    let after = free.update(slot.order as int, free[slot.order as int].remove(slot.offset));
    let used = live.insert(slot);
    assert forall|s: Slot| #[trigger] held(after, used, s) == held(free, live, s) by {}
    assert forall|s: Slot| #[trigger] is_free(after, s) implies !used.contains(s) by {
        assert(is_free(free, s));
    }
    assert forall|byte: int| 0 <= byte < extent(arena) implies #[trigger] covered(
        after,
        used,
        byte,
    ) by {
        assert(covered(free, live, byte));
        let s = choose|s: Slot| #[trigger] held(free, live, s) && covers(s, byte);
        assert(held(after, used, s));
    }
    assert forall|s: Slot| #[trigger] is_free(after, s) && s.order < arena implies !is_free(
        after,
        buddy(s),
    ) by {
        assert(is_free(free, s));
    }
}

/// Giving an extent back whose buddy is in use.
proof fn lemma_give(arena: u32, free: Seq<Set<u32>>, live: Set<Slot>, slot: Slot)
    requires
        partition(arena, free, live),
        live.contains(slot),
        slot.order < arena ==> !is_free(free, buddy(slot)),
    ensures
        partition(
            arena,
            free.update(slot.order as int, free[slot.order as int].insert(slot.offset)),
            live.remove(slot),
        ),
{
    let after = free.update(slot.order as int, free[slot.order as int].insert(slot.offset));
    let used = live.remove(slot);
    assert(held(free, live, slot));
    assert forall|s: Slot| #[trigger] held(after, used, s) == held(free, live, s) by {}
    assert forall|s: Slot| #[trigger] is_free(after, s) implies !used.contains(s) by {
        if s != slot {
            assert(is_free(free, s));
        }
    }
    assert forall|byte: int| 0 <= byte < extent(arena) implies #[trigger] covered(
        after,
        used,
        byte,
    ) by {
        assert(covered(free, live, byte));
        let s = choose|s: Slot| #[trigger] held(free, live, s) && covers(s, byte);
        assert(held(after, used, s));
    }
    assert forall|s: Slot| #[trigger] is_free(after, s) && s.order < arena implies !is_free(
        after,
        buddy(s),
    ) by {
        assert(held(after, used, s));
        assert(fits(arena, s));
        lemma_double(s.order);
        lemma_buddy(arena, s);
        if s == slot {
            assert(buddy(s) != s);
        } else {
            assert(is_free(free, s));
            if buddy(s) == slot {
                assert(buddy(slot) == s);
            }
        }
    }
}

/// A buddy is another extent of the same order in the same arena, and the relation is
/// symmetric.
proof fn lemma_buddy(arena: u32, slot: Slot)
    requires
        MIN_ORDER <= arena <= MAX_ORDER,
        fits(arena, slot),
        slot.order < arena,
    ensures
        buddy(buddy(slot)) == slot,
        buddy(slot) != slot,
        fits(arena, buddy(slot)),
        fits(arena, parent(slot)),
        parent(slot).offset == slot.offset || parent(slot).offset == buddy(slot).offset,
        parent(slot).offset <= slot.offset,
        parent(slot).offset <= buddy(slot).offset,
        apart(slot, buddy(slot)),
        extent(parent(slot).order) == 2 * extent(slot.order),
{
    let half = extent(slot.order);
    lemma_double(slot.order);
    let offset = slot.offset as int;
    lemma_arena_multiple(arena, (slot.order + 1) as u32);
    vstd::arithmetic::power2::lemma2_to64();
    if arena < 30 {
        lemma_pow2_strictly_increases(arena as nat, 30);
    }
    if offset % (2 * half) == 0 {
        lemma_half_aligned(offset, half);
        lemma_room(offset, 2 * half, extent(arena));
    } else {
        lemma_odd_half(offset, half);
        lemma_half_aligned(offset - half, half);
    }
}

/// The arena is a whole number of extents of any order in it.
proof fn lemma_arena_multiple(arena: u32, order: u32)
    requires
        order <= arena,
    ensures
        extent(arena) % extent(order) == 0,
        extent(order) > 0,
{
    lemma_pow2_pos(order as nat);
    lemma_pow2_adds(order as nat, (arena - order) as nat);
    let size = extent(order);
    let count = pow2((arena - order) as nat) as int;
    assert(extent(arena) == size * count);
    vstd::arithmetic::div_mod::lemma_mod_multiples_basic(count, size);
    assert(count * size == size * count) by (nonlinear_arith);
}

proof fn lemma_room(offset: int, size: int, total: int)
    by (nonlinear_arith)
    requires
        size > 0,
        offset % size == 0,
        total % size == 0,
        offset < total,
    ensures
        offset + size <= total,
{
    let a = offset / size;
    let b = total / size;
    assert(offset == size * a);
    assert(total == size * b);
    assert(a < b);
    assert(size * (a + 1) <= size * b);
}

/// Splitting a live extent: its lower half stays live, its upper half is free.
proof fn lemma_halve(arena: u32, free: Seq<Set<u32>>, live: Set<Slot>, slot: Slot)
    requires
        partition(arena, free, live),
        live.contains(slot),
        slot.order > MIN_ORDER,
    ensures
        ({
            let order = (slot.order - 1) as u32;
            let upper = (slot.offset + extent(order)) as u32;
            &&& slot.offset + extent(order) <= u32::MAX
            &&& partition(
                arena,
                free.update(order as int, free[order as int].insert(upper)),
                live.remove(slot).insert(Slot { offset: slot.offset, order }),
            )
        }),
{
    let order = (slot.order - 1) as u32;
    let half = extent(order);
    assert(held(free, live, slot));
    assert(fits(arena, slot));
    lemma_double(order);
    lemma_half_aligned(slot.offset as int, half);
    vstd::arithmetic::power2::lemma2_to64();
    if arena < 30 {
        lemma_pow2_strictly_increases(arena as nat, 30);
    }
    let low = Slot { offset: slot.offset, order };
    let high = Slot { offset: (slot.offset + half) as u32, order };
    let after = free.update(order as int, free[order as int].insert(high.offset));
    let used = live.remove(slot).insert(low);
    assert forall|s: Slot| #[trigger]
        held(after, used, s) == (s == low || s == high || (held(free, live, s) && s != slot)) by {
        if is_free(free, s) && s == slot {
        }
    }
    assert(!held(free, live, low)) by {
        if held(free, live, low) {
            assert(apart(low, slot));
        }
    }
    assert(!held(free, live, high)) by {
        if held(free, live, high) {
            assert(apart(high, slot));
        }
    }
    assert forall|s: Slot| #[trigger] held(after, used, s) implies fits(arena, s) by {
        if s != low && s != high {
            assert(held(free, live, s));
        }
    }
    assert forall|a: Slot, b: Slot|
        #![trigger held(after, used, a), held(after, used, b)]
        held(after, used, a) && held(after, used, b) && a != b implies apart(a, b) by {
        if a != low && a != high {
            assert(held(free, live, a));
            assert(apart(a, slot));
        }
        if b != low && b != high {
            assert(held(free, live, b));
            assert(apart(b, slot));
        }
        lemma_pow2_pos(a.order as nat);
        lemma_pow2_pos(b.order as nat);
    }
    assert forall|s: Slot| #[trigger] is_free(after, s) implies !used.contains(s) by {
        if s == high {
            assert(!live.contains(high));
        } else {
            assert(is_free(free, s));
            assert(held(free, live, s));
        }
    }
    assert forall|byte: int| 0 <= byte < extent(arena) implies #[trigger] covered(
        after,
        used,
        byte,
    ) by {
        assert(covered(free, live, byte));
        let s = choose|s: Slot| #[trigger] held(free, live, s) && covers(s, byte);
        if s == slot {
            if byte < slot.offset + half {
                assert(held(after, used, low) && covers(low, byte));
            } else {
                assert(held(after, used, high) && covers(high, byte));
            }
        } else {
            assert(held(after, used, s));
        }
    }
    assert forall|s: Slot| #[trigger] is_free(after, s) && s.order < arena implies !is_free(
        after,
        buddy(s),
    ) by {
        assert(held(after, used, s));
        lemma_buddy(arena, s);
        if s == high {
            assert(buddy(high) == low);
            assert(!is_free(free, low)) by {
                assert(!held(free, live, low));
            }
        } else {
            assert(is_free(free, s));
            if buddy(s) == high {
                assert(buddy(high) == s);
                assert(buddy(high) == low);
                assert(held(free, live, s));
            }
        }
    }
}

/// Joining a live extent with its free buddy.
proof fn lemma_join(arena: u32, free: Seq<Set<u32>>, live: Set<Slot>, slot: Slot)
    requires
        partition(arena, free, live),
        live.contains(slot),
        slot.order < arena,
        is_free(free, buddy(slot)),
    ensures
        partition(
            arena,
            free.update(slot.order as int, free[slot.order as int].remove(buddy(slot).offset)),
            live.remove(slot).insert(parent(slot)),
        ),
{
    let other = buddy(slot);
    let whole = parent(slot);
    assert(held(free, live, slot));
    assert(held(free, live, other));
    lemma_buddy(arena, slot);
    lemma_double(slot.order);
    let after = free.update(slot.order as int, free[slot.order as int].remove(other.offset));
    let used = live.remove(slot).insert(whole);
    assert(!live.contains(other));
    assert forall|s: Slot| #[trigger]
        held(after, used, s) == (s == whole || (held(free, live, s) && s != slot && s != other)) by {
        if is_free(free, s) && s == slot {
        }
    }
    assert(!held(free, live, whole)) by {
        if held(free, live, whole) {
            assert(apart(whole, slot));
        }
    }
    assert forall|a: Slot, b: Slot|
        #![trigger held(after, used, a), held(after, used, b)]
        held(after, used, a) && held(after, used, b) && a != b implies apart(a, b) by {
        lemma_pow2_pos(a.order as nat);
        lemma_pow2_pos(b.order as nat);
        if a == whole {
            assert(held(free, live, b));
            assert(apart(slot, b) && apart(other, b));
        } else if b == whole {
            assert(held(free, live, a));
            assert(apart(slot, a) && apart(other, a));
        } else {
            assert(held(free, live, a) && held(free, live, b));
        }
    }
    assert forall|s: Slot| #[trigger] held(after, used, s) implies fits(arena, s) by {
        if s != whole {
            assert(held(free, live, s));
        }
    }
    assert forall|s: Slot| #[trigger] is_free(after, s) implies !used.contains(s) by {
        assert(is_free(free, s));
        assert(held(free, live, s));
    }
    assert forall|byte: int| 0 <= byte < extent(arena) implies #[trigger] covered(
        after,
        used,
        byte,
    ) by {
        assert(covered(free, live, byte));
        let s = choose|s: Slot| #[trigger] held(free, live, s) && covers(s, byte);
        if s == slot || s == other {
            assert(held(after, used, whole) && covers(whole, byte));
        } else {
            assert(held(after, used, s));
        }
    }
    assert forall|s: Slot| #[trigger] is_free(after, s) && s.order < arena implies !is_free(
        after,
        buddy(s),
    ) by {
        assert(is_free(free, s));
    }
}

/// Live extents never share a byte.
pub proof fn live_extents_share_no_byte(
    arena: u32,
    free: Seq<Set<u32>>,
    live: Set<Slot>,
    a: Slot,
    b: Slot,
)
    requires
        partition(arena, free, live),
        live.contains(a),
        live.contains(b),
        a != b,
    ensures
        apart(a, b),
        a.offset + extent(a.order) <= extent(arena),
{
    assert(held(free, live, a) && held(free, live, b));
}

/// Once every extent is given back, the arena is one free extent again.
pub proof fn the_arena_becomes_whole(arena: u32, free: Seq<Set<u32>>)
    requires
        partition(arena, free, Set::empty()),
    ensures
        forall|slot: Slot| #[trigger]
            is_free(free, slot) <==> slot == (Slot { offset: 0, order: arena }),
{
    let live = Set::<Slot>::empty();
    lemma_pow2_pos(arena as nat);
    assert forall|slot: Slot| is_free(free, slot) implies slot.order == arena by {
        lemma_no_smaller(arena, free, slot);
    }
    assert(covered(free, live, 0));
    let first = choose|s: Slot| #[trigger] held(free, live, s) && covers(s, 0);
    assert(is_free(free, first));
    assert(fits(arena, first));
    let whole = Slot { offset: 0, order: arena };
    assert(first == whole);
    assert forall|slot: Slot| #[trigger] is_free(free, slot) implies slot == whole by {
        assert(held(free, live, slot));
        if slot != whole {
            assert(apart(slot, whole));
            lemma_pow2_pos(slot.order as nat);
        }
    }
}

/// With nothing in use, a free extent of the least order is the whole arena.
proof fn lemma_no_smaller(arena: u32, free: Seq<Set<u32>>, slot: Slot)
    requires
        partition(arena, free, Set::empty()),
        is_free(free, slot),
    ensures
        slot.order == arena,
    decreases slot.order,
{
    let live = Set::<Slot>::empty();
    assert(held(free, live, slot));
    if slot.order < arena {
        let other = buddy(slot);
        lemma_buddy(arena, slot);
        lemma_double(slot.order);
        assert(covered(free, live, other.offset as int));
        let owner = choose|s: Slot| #[trigger]
            held(free, live, s) && covers(s, other.offset as int);
        assert(is_free(free, owner));
        lemma_pow2_pos(owner.order as nat);
        if owner.order < slot.order {
            lemma_no_smaller(arena, free, owner);
        } else {
            lemma_nested(other, owner);
            if owner.order == slot.order {
                lemma_nested(owner, other);
                assert(owner == other);
            } else {
                lemma_nested_parent(slot, owner);
                assert(owner != slot);
                assert(apart(owner, slot));
            }
            assert(false);
        }
    }
}

/// Two extents that share a byte are nested.
proof fn lemma_nested(small: Slot, large: Slot)
    requires
        small.order <= large.order,
        small.offset as int % extent(small.order) == 0,
        large.offset as int % extent(large.order) == 0,
        !apart(small, large),
    ensures
        large.offset <= small.offset,
        small.offset + extent(small.order) <= large.offset + extent(large.order),
{
    let size = extent(small.order);
    let count = pow2((large.order - small.order) as nat) as int;
    lemma_pow2_adds(small.order as nat, (large.order - small.order) as nat);
    lemma_pow2_pos(small.order as nat);
    lemma_pow2_pos((large.order - small.order) as nat);
    lemma_nested_arith(small.offset as int, size, large.offset as int, count);
}

proof fn lemma_nested_arith(a: int, size: int, b: int, count: int)
    by (nonlinear_arith)
    requires
        size > 0,
        count > 0,
        a % size == 0,
        b % (size * count) == 0,
        a < b + size * count,
        b < a + size,
    ensures
        b <= a,
        a + size <= b + size * count,
{
    let x = a / size;
    let y = b / (size * count);
    assert(a == size * x);
    assert(b == (size * count) * y);
    assert(b == size * (count * y));
    let z = count * y;
    assert(size * z < size * (x + 1));
    assert(z < x + 1);
    assert(size * z <= size * x);
    assert(size * x < size * (z + count));
    assert(x < z + count);
    assert(size * (x + 1) <= size * (z + count));
}

/// An extent of a higher order that holds the buddy of an extent holds the extent.
proof fn lemma_nested_parent(slot: Slot, owner: Slot)
    requires
        slot.order < owner.order <= MAX_ORDER,
        MIN_ORDER <= slot.order,
        exists|arena: u32| #[trigger]
            fits(arena, slot) && slot.order < arena <= MAX_ORDER && fits(arena, owner),
        covers(owner, buddy(slot).offset as int),
    ensures
        !apart(owner, slot),
{
    let arena = choose|arena: u32| #[trigger]
        fits(arena, slot) && slot.order < arena <= MAX_ORDER && fits(arena, owner);
    lemma_buddy(arena, slot);
    lemma_double(slot.order);
    let whole = parent(slot);
    lemma_pow2_pos(owner.order as nat);
    assert(!apart(whole, owner));
    lemma_nested(whole, owner);
}

/// The bytes that the live extents hold.
pub open spec fn reserved(live: Set<Slot>) -> nat {
    live.fold(0nat, |sum: nat, slot: Slot| (sum + extent(slot.order)) as nat)
}

proof fn lemma_reserved_insert(live: Set<Slot>, slot: Slot)
    requires
        live.finite(),
        !live.contains(slot),
    ensures
        reserved(live.insert(slot)) == reserved(live) + extent(slot.order),
{
    let add_extent = |sum: nat, slot: Slot| (sum + extent(slot.order)) as nat;
    assert forall|a: Slot, b: Slot, sum: nat| #[trigger]
        add_extent(add_extent(sum, b), a) == add_extent(add_extent(sum, a), b) by {
        lemma_pow2_pos(a.order as nat);
        lemma_pow2_pos(b.order as nat);
    }
    vstd::set::fold::lemma_fold_insert(live, 0nat, add_extent, slot);
    lemma_pow2_pos(slot.order as nat);
}

/// The free extents after a free one of order `from` was split down to order `order`:
/// the upper half of every split is free.
pub open spec fn split(free: Seq<Set<u32>>, offset: u32, order: u32, from: u32) -> Seq<Set<u32>> {
    Seq::new(
        free.len(),
        |n: int|
            if n == from {
                free[n].remove(offset)
            } else if order <= n < from {
                free[n].insert((offset + extent(n as u32)) as u32)
            } else {
                free[n]
            },
    )
}

/// The free extents after an extent was given back: it joins its buddy as long as that
/// one is free.
pub open spec fn joined(free: Seq<Set<u32>>, slot: Slot) -> Seq<Set<u32>>
    decreases free.len() - slot.order,
{
    if slot.order + 1 < free.len() && slot.order < u32::MAX && is_free(free, buddy(slot)) {
        joined(
            free.update(slot.order as int, free[slot.order as int].remove(buddy(slot).offset)),
            parent(slot),
        )
    } else {
        free.update(slot.order as int, free[slot.order as int].insert(slot.offset))
    }
}

proof fn lemma_rejoin(free: Seq<Set<u32>>, offset: u32, order: u32, from: u32)
    requires
        order <= from <= MAX_ORDER,
        from < free.len(),
        free[from as int].contains(offset),
        offset as int % extent(from) == 0,
        offset + extent(from) <= u32::MAX,
        forall|n: int| order <= n < from ==> #[trigger] free[n] == Set::<u32>::empty(),
        from + 1 < free.len() ==> !is_free(free, buddy(Slot { offset, order: from })),
    ensures
        joined(split(free, offset, order, from), Slot { offset, order }) == free,
    decreases from - order,
{
    let slot = Slot { offset, order };
    let taken = split(free, offset, order, from);
    if order == from {
        if from + 1 < free.len() {
            assert(!is_free(taken, buddy(slot)));
        }
        assert(joined(taken, slot) =~= free) by {
            assert(taken[from as int].insert(offset) =~= free[from as int]);
        }
    } else {
        let above = (order + 1) as u32;
        lemma_double(order);
        lemma_arena_multiple(from, above);
        lemma_arena_multiple(from, order);
        let whole = extent(above);
        let count = extent(from) / whole;
        vstd::arithmetic::div_mod::lemma_fundamental_div_mod(extent(from), whole);
        assert(extent(from) > 0 && count > 0) by {
            lemma_pow2_pos(from as nat);
            vstd::arithmetic::div_mod::lemma_div_pos_is_pos(extent(from), whole);
            if count <= 0 {
                assert(whole * count <= 0) by (nonlinear_arith)
                    requires
                        whole > 0,
                        count <= 0,
                ;
            }
        }
        vstd::arithmetic::div_mod::lemma_mod_mod(offset as int, whole, count);
        assert(offset as int % whole == 0);
        assert(whole <= extent(from)) by (nonlinear_arith)
            requires
                extent(from) == whole * count,
                count > 0,
                whole > 0,
        ;
        assert(buddy(slot) == Slot { offset: (offset + extent(order)) as u32, order });
        assert(is_free(taken, buddy(slot)));
        let rest = taken.update(order as int, taken[order as int].remove(buddy(slot).offset));
        assert(rest =~= split(free, offset, above, from)) by {
            assert(taken[order as int].remove(buddy(slot).offset) =~= free[order as int]);
        }
        assert(parent(slot) == Slot { offset, order: above });
        lemma_rejoin(free, offset, above, from);
    }
}

/// Giving an extent back right after it was taken restores the arena: the same extents
/// are free and live as before, and as many bytes are reserved.
pub proof fn giving_back_at_once_restores_the_arena(
    arena: u32,
    free: Seq<Set<u32>>,
    live: Set<Slot>,
    slot: Slot,
    from: u32,
)
    requires
        partition(arena, free, live),
        served_from(free, slot, from),
        !live.contains(slot),
    ensures
        joined(split(free, slot.offset, slot.order, from), slot) == free,
        live.insert(slot).remove(slot) == live,
        reserved(live.insert(slot).remove(slot)) == reserved(live),
{
    let whole = Slot { offset: slot.offset, order: from };
    assert(is_free(free, whole));
    assert(held(free, live, whole));
    assert(fits(arena, whole));
    vstd::arithmetic::power2::lemma2_to64();
    if arena < 30 {
        lemma_pow2_strictly_increases(arena as nat, 30);
    }
    lemma_rejoin(free, slot.offset, slot.order, from);
    assert(live.insert(slot).remove(slot) =~= live);
}

/// The least order whose extents hold this many bytes.
pub open spec fn is_order_for(bytes: nat, order: u32) -> bool {
    &&& MIN_ORDER <= order
    &&& bytes <= extent(order)
    &&& order == MIN_ORDER || bytes > extent((order - 1) as u32)
}

/// An extent comes from the least order that has a free one, and there from the least
/// offset.
pub open spec fn served_from(free: Seq<Set<u32>>, slot: Slot, from: u32) -> bool {
    &&& slot.order <= from < free.len()
    &&& is_least(free[from as int], slot.offset)
    &&& forall|n: int| slot.order <= n < from ==> #[trigger] free[n] == Set::<u32>::empty()
}

/// The extents of one file.
pub struct Arena {
    pub free: Vec<Offsets>,
    pub order: u32,
    pub reserved: u64,
    pub live: Ghost<Set<Slot>>,
}

impl Arena {
    /// The free extents of each order, by offset.
    pub open spec fn levels(&self) -> Seq<Set<u32>> {
        levels(self.free@)
    }

    /// Free and live extents are a partition of the arena.
    pub open spec fn wf(&self) -> bool {
        &&& forall|i: int| 0 <= i < self.free@.len() ==> (#[trigger] self.free@[i]).wf()
        &&& partition(self.order, self.levels(), self.live@)
        &&& self.reserved == reserved(self.live@)
        &&& self.reserved <= extent(self.order)
    }

    /// An arena of this many bytes, all of it free.
    pub fn new(bytes: u64) -> (arena: Option<Self>)
        ensures
            match arena {
                Some(arena) => arena.wf() && arena.live@ == Set::<Slot>::empty() && arena.reserved
                    == 0 && bytes == extent(arena.order),
                None => forall|order: u32|
                    MIN_ORDER <= order <= MAX_ORDER ==> bytes != #[trigger] extent(order),
            },
    {
        let mut order: u32 = MIN_ORDER;
        while order <= MAX_ORDER
            invariant
                MIN_ORDER <= order <= MAX_ORDER + 1,
                forall|n: u32| MIN_ORDER <= n < order ==> bytes != #[trigger] extent(n),
            decreases MAX_ORDER + 1 - order,
        {
            let size = extent_bytes(order);
            if size as u64 == bytes {
                return Some(Self::of_order(order));
            }
            order = order + 1;
        }
        None
    }

    /// An arena of this order, all of it free.
    fn of_order(order: u32) -> (arena: Self)
        requires
            MIN_ORDER <= order <= MAX_ORDER,
        ensures
            arena.wf(),
            arena.order == order,
            arena.live@ == Set::<Slot>::empty(),
            arena.reserved == 0,
    {
        let mut free: Vec<Offsets> = Vec::new();
        let mut n: u32 = 0;
        while n < order
            invariant
                n <= order <= MAX_ORDER,
                free@.len() == n,
                forall|i: int|
                    0 <= i < n ==> (#[trigger] free@[i]).wf() && free@[i]@ == Set::<u32>::empty(),
            decreases order - n,
        {
            free.push(Offsets::new());
            n = n + 1;
        }
        let mut whole = Offsets::new();
        whole.insert(0);
        free.push(whole);
        let arena = Arena { free, order, reserved: 0, live: Ghost(Set::empty()) };
        proof {
            let levels = arena.levels();
            let live = Set::<Slot>::empty();
            let all = Slot { offset: 0, order };
            lemma_pow2_pos(order as nat);
            assert forall|s: Slot| #[trigger] held(levels, live, s) == (s == all) by {}
            assert forall|byte: int| 0 <= byte < extent(order) implies #[trigger] covered(
                levels,
                live,
                byte,
            ) by {
                assert(held(levels, live, all) && covers(all, byte));
            }
            assert forall|s: Slot| #[trigger]
                is_free(levels, s) && s.order < order implies !is_free(levels, buddy(s)) by {
                assert(held(levels, live, s));
            }
            vstd::set::fold::lemma_fold_empty(
                0nat,
                |sum: nat, slot: Slot| (sum + extent(slot.order)) as nat,
            );
        }
        arena
    }

    /// Takes an extent for this many bytes. It is refused, with nothing changed, where
    /// none is large enough.
    pub fn allocate(&mut self, bytes: usize) -> (slot: Option<Slot>)
        requires
            old(self).wf(),
        ensures
            final(self).wf(),
            final(self).order == old(self).order,
            match slot {
                Some(slot) => is_order_for(bytes as nat, slot.order) && fits(
                    old(self).order,
                    slot,
                ) && !old(self).live@.contains(slot) && final(self).live@ == old(self).live@.insert(
                    slot,
                ) && exists|from: u32| #[trigger]
                    served_from(old(self).levels(), slot, from) && final(self).levels() == split(
                        old(self).levels(),
                        slot.offset,
                        slot.order,
                        from,
                    ),
                None => *final(self) == *old(self) && (bytes > extent(old(self).order) || exists|
                    order: u32,
                |
                    #[trigger] is_order_for(bytes as nat, order) && order <= old(self).order
                        && forall|n: int|
                        order <= n <= old(self).order ==> #[trigger] old(self).levels()[n]
                            == Set::<u32>::empty()),
            },
    {
        let ghost start = *self;
        let ghost arena = self.order;
        let mut order: u32 = MIN_ORDER;
        let mut size = extent_bytes(order) as usize;
        while order < self.order && size < bytes
            invariant
                *self == start,
                start.wf(),
                MIN_ORDER <= order <= self.order <= MAX_ORDER,
                size == extent(order),
                order == MIN_ORDER || bytes > extent((order - 1) as u32),
            decreases self.order - order,
        {
            order = order + 1;
            size = extent_bytes(order) as usize;
        }
        if size < bytes {
            return None;
        }
        let mut from: u32 = order;
        while from <= self.order && self.free[from as usize].is_empty()
            invariant
                *self == start,
                start.wf(),
                order <= from <= self.order + 1,
                self.order <= MAX_ORDER,
                forall|n: int|
                    order <= n < from ==> #[trigger] start.levels()[n] == Set::<u32>::empty(),
            decreases self.order + 1 - from,
        {
            from = from + 1;
        }
        if from > self.order {
            proof {
                assert(is_order_for(bytes as nat, order));
            }
            return None;
        }
        let first = self.free[from as usize].pop_first();
        match first {
            None => {
                proof {
                    assert(start.free@[from as int]@ == Set::<u32>::empty());
                    assert(false);
                }
                None
            },
            Some(offset) => {
                let ghost mut live = start.live@;
                proof {
                    let taken = Slot { offset, order: from };
                    assert(start.levels()[from as int] == start.free@[from as int]@);
                    assert(is_free(start.levels(), taken));
                    lemma_take(arena, start.levels(), live, taken);
                    assert(self.levels() =~= start.levels().update(
                        from as int,
                        start.levels()[from as int].remove(offset),
                    ));
                    live = live.insert(taken);
                    assert(!start.live@.contains(taken));
                    assert(self.levels() =~= split(start.levels(), offset, from, from));
                }
                let mut at: u32 = from;
                while order < at
                    invariant
                        MIN_ORDER <= order <= at <= from <= arena <= MAX_ORDER,
                        self.order == arena,
                        self.order == start.order,
                        self.reserved == start.reserved,
                        self.live == start.live,
                        start.wf(),
                        self.free@.len() == arena + 1,
                        forall|i: int|
                            0 <= i < self.free@.len() ==> (#[trigger] self.free@[i]).wf(),
                        live == start.live@.insert(Slot { offset, order: at }),
                        !start.live@.contains(Slot { offset, order: at }),
                        partition(arena, self.levels(), live),
                        self.levels() == split(start.levels(), offset, at, from),
                    decreases at - order,
                {
                    let ghost before = self.levels();
                    let ghost slot = Slot { offset, order: at };
                    proof {
                        lemma_halve(arena, before, live, slot);
                    }
                    at = at - 1;
                    let half = extent_bytes(at);
                    self.free[at as usize].insert(offset + half);
                    proof {
                        assert(self.levels() =~= before.update(
                            at as int,
                            before[at as int].insert((offset + half) as u32),
                        ));
                        let low = Slot { offset, order: at };
                        assert(held(before, live, slot));
                        assert(!start.live@.contains(low)) by {
                            if start.live@.contains(low) {
                                assert(live.contains(low));
                                assert(held(before, live, low));
                                lemma_pow2_pos(at as nat);
                                lemma_pow2_pos(slot.order as nat);
                                assert(apart(low, slot));
                            }
                        }
                        assert(live.remove(slot) =~= start.live@);
                        live = start.live@.insert(low);
                        assert(self.levels() =~= split(start.levels(), offset, at, from));
                    }
                }
                let slot = Slot { offset, order };
                proof {
                    lemma_reserved_insert(start.live@, slot);
                    lemma_reserved_bound(arena, self.levels(), live);
                    vstd::arithmetic::power2::lemma2_to64();
                    if arena < 30 {
                        lemma_pow2_strictly_increases(arena as nat, 30);
                    }
                    assert(held(self.levels(), live, slot));
                }
                self.reserved = self.reserved + extent_bytes(order) as u64;
                self.live = Ghost(live);
                proof {
                    assert(served_from(start.levels(), slot, from)) by {
                        assert(start.levels()[from as int] == start.free@[from as int]@);
                    }
                }
                Some(slot)
            },
        }
    }

    /// Gives a live extent back.
    pub fn release(&mut self, slot: Slot)
        requires
            old(self).wf(),
            old(self).live@.contains(slot),
        ensures
            final(self).wf(),
            final(self).order == old(self).order,
            final(self).live@ == old(self).live@.remove(slot),
            final(self).levels() == joined(old(self).levels(), slot),
    {
        let ghost start = *self;
        let ghost arena = self.order;
        let ghost rest = self.live@.remove(slot);
        proof {
            assert(held(self.levels(), self.live@, slot));
            lemma_reserved_insert(rest, slot);
            assert(rest.insert(slot) =~= self.live@);
            lemma_pow2_pos(slot.order as nat);
        }
        self.reserved = self.reserved - extent_bytes(slot.order) as u64;
        let mut offset = slot.offset;
        let mut order = slot.order;
        let mut going = true;
        while going
            invariant
                MIN_ORDER <= order <= arena <= MAX_ORDER,
                self.order == arena,
                self.order == start.order,
                start.wf(),
                self.live == start.live,
                self.reserved == reserved(rest),
                self.reserved <= extent(arena),
                rest == start.live@.remove(slot),
                self.free@.len() == arena + 1,
                forall|i: int| 0 <= i < self.free@.len() ==> (#[trigger] self.free@[i]).wf(),
                !rest.contains(Slot { offset, order }),
                partition(arena, self.levels(), rest.insert(Slot { offset, order })),
                joined(self.levels(), Slot { offset, order }) == joined(start.levels(), slot),
                !going ==> order == arena || !is_free(
                    self.levels(),
                    buddy(Slot { offset, order }),
                ),
            decreases arena - order, going as int,
        {
            if order >= self.order {
                going = false;
            } else {
                let ghost here = Slot { offset, order };
                let ghost live = rest.insert(here);
                let ghost before = self.levels();
                proof {
                    assert(held(before, live, here));
                    lemma_buddy(arena, here);
                    lemma_double(order);
                }
                let size = extent_bytes(order);
                let whole = extent_bytes(order + 1);
                let lower = offset % whole == 0;
                proof {
                    assert(extent((order + 1) as u32) == 2 * extent(order));
                    assert(lower == (offset as int % (2 * extent(order)) == 0));
                    vstd::arithmetic::power2::lemma2_to64();
                    if arena < 30 {
                        lemma_pow2_strictly_increases(arena as nat, 30);
                    }
                    if !lower {
                        lemma_odd_half(offset as int, extent(order));
                    }
                }
                let other = if lower {
                    offset + size
                } else {
                    offset - size
                };
                assert(other == buddy(here).offset);
                let found = self.free[order as usize].remove(other);
                proof {
                    assert(self.levels() =~= before.update(
                        order as int,
                        before[order as int].remove(other),
                    ));
                    assert(found == is_free(before, buddy(here)));
                }
                if found {
                    proof {
                        lemma_join(arena, before, live, here);
                        assert(live.remove(here) =~= rest);
                        let whole = parent(here);
                        assert(!rest.contains(whole)) by {
                            if rest.contains(whole) {
                                assert(held(before, live, whole));
                                lemma_pow2_pos(whole.order as nat);
                                assert(apart(whole, here));
                            }
                        }
                    }
                    if !lower {
                        offset = other;
                    }
                    order = order + 1;
                } else {
                    proof {
                        assert(before[order as int].remove(other) =~= before[order as int]);
                        assert(self.levels() =~= before);
                    }
                    going = false;
                }
            }
        }
        let ghost before = self.levels();
        let ghost here = Slot { offset, order };
        proof {
            lemma_give(arena, before, rest.insert(here), here);
            assert(rest.insert(here).remove(here) =~= rest);
        }
        self.free[order as usize].insert(offset);
        self.live = Ghost(rest);
        proof {
            assert(self.levels() =~= before.update(
                order as int,
                before[order as int].insert(offset),
            ));
        }
    }
}

/// The bytes of some extents.
pub open spec fn taken(live: Set<Slot>) -> Set<int> {
    Set::new(|byte: int| exists|slot: Slot| #[trigger] live.contains(slot) && covers(slot, byte))
}

/// Extents that share no byte hold as many bytes as their sizes add up to.
proof fn lemma_measure(live: Set<Slot>)
    requires
        live.finite(),
        forall|a: Slot, b: Slot|
            #![trigger live.contains(a), live.contains(b)]
            live.contains(a) && live.contains(b) && a != b ==> apart(a, b),
    ensures
        taken(live).finite(),
        taken(live).len() == reserved(live),
    decreases live.len(),
{
    if live.len() == 0 {
        assert(live =~= Set::<Slot>::empty());
        assert(taken(live) =~= Set::<int>::empty());
        vstd::set::fold::lemma_fold_empty(
            0nat,
            |sum: nat, slot: Slot| (sum + extent(slot.order)) as nat,
        );
    } else {
        let slot = live.choose();
        let rest = live.remove(slot);
        let range = vstd::set_lib::set_int_range(
            slot.offset as int,
            slot.offset + extent(slot.order),
        );
        lemma_pow2_pos(slot.order as nat);
        vstd::set_lib::lemma_int_range(slot.offset as int, slot.offset + extent(slot.order));
        assert forall|a: Slot, b: Slot|
            #![trigger rest.contains(a), rest.contains(b)]
            rest.contains(a) && rest.contains(b) && a != b implies apart(a, b) by {
            assert(live.contains(a) && live.contains(b));
        }
        lemma_measure(rest);
        lemma_reserved_insert(rest, slot);
        assert(rest.insert(slot) =~= live);
        assert(taken(rest).disjoint(range)) by {
            assert forall|byte: int| taken(rest).contains(byte) implies !range.contains(byte) by {
                let other = choose|s: Slot| #[trigger] rest.contains(s) && covers(s, byte);
                assert(live.contains(other));
                assert(apart(other, slot));
            }
        }
        assert forall|byte: int| #[trigger]
            taken(live).contains(byte) <==> (taken(rest) + range).contains(byte) by {
            if taken(live).contains(byte) {
                let s = choose|s: Slot| #[trigger] live.contains(s) && covers(s, byte);
                if s != slot {
                    assert(rest.contains(s));
                }
            }
            if taken(rest).contains(byte) {
                let s = choose|s: Slot| #[trigger] rest.contains(s) && covers(s, byte);
                assert(live.contains(s));
            }
            if range.contains(byte) {
                assert(live.contains(slot) && covers(slot, byte));
            }
        }
        assert(taken(live) =~= taken(rest) + range);
        vstd::set_lib::lemma_set_disjoint_lens(taken(rest), range);
    }
}

/// The live extents together hold no more than the arena.
proof fn lemma_reserved_bound(arena: u32, free: Seq<Set<u32>>, live: Set<Slot>)
    requires
        partition(arena, free, live),
    ensures
        reserved(live) <= extent(arena),
{
    assert forall|a: Slot, b: Slot|
        #![trigger live.contains(a), live.contains(b)]
        live.contains(a) && live.contains(b) && a != b implies apart(a, b) by {
        assert(held(free, live, a) && held(free, live, b));
    }
    assert forall|byte: int| #[trigger] taken(live).contains(byte) implies 0 <= byte < extent(
        arena,
    ) by {
        let slot = choose|slot: Slot| #[trigger] live.contains(slot) && covers(slot, byte);
        assert(held(free, live, slot));
    }
    lemma_measure(live);
    vstd::set_lib::lemma_int_range(0, extent(arena));
    lemma_pow2_pos(arena as nat);
    vstd::set_lib::lemma_len_subset(taken(live), vstd::set_lib::set_int_range(0, extent(arena)));
}

} // verus!
