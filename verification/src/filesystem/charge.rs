//! What the view index costs the process. Each distinct allocation is charged
//! once, not each view that can see it.
use crate::journal::tables::Table;
use crate::model::Id;
use vstd::prelude::*;

verus! {

/// What one allocation costs: an eight byte header, rounded up to sixteen, and at
/// least thirty-two.
pub open spec fn chunk_cost(requested: int) -> int {
    if requested == 0 {
        0
    } else if requested <= 24 {
        32
    } else {
        ((requested + 8 + 15) / 16) * 16
    }
}

/// What one allocation costs the process, not what was asked for.
pub fn chunk(requested: usize) -> (cost: u64)
    requires
        requested <= usize::MAX - 23,
    ensures
        cost == chunk_cost(requested as int),
{
    if requested == 0 {
        return 0;
    }
    if requested <= 24 {
        return 32;
    }
    let whole: usize = (requested + 23) / 16 * 16;
    whole as u64
}

/// A larger request never costs less, and no request costs less than itself.
pub proof fn chunks_cover_requests(a: int, b: int)
    requires
        0 <= a <= b,
    ensures
        chunk_cost(a) <= chunk_cost(b),
        a <= chunk_cost(a),
{
}

/// The two counters that stand before a shared value.
pub const COUNTERS: usize = 16;

/// What a shared text costs: its counters stand in the same allocation as its bytes.
pub fn shared_text(length: usize) -> (cost: u64)
    requires
        length <= usize::MAX - 39,
    ensures
        cost == chunk_cost(length + COUNTERS),
{
    chunk(length + COUNTERS)
}

/// What some allocations cost together.
pub open spec fn cost_of(sizes: Seq<usize>) -> int
    decreases sizes.len(),
{
    if sizes.len() == 0 {
        0
    } else {
        cost_of(sizes.drop_last()) + chunk_cost(sizes.last() as int)
    }
}

/// What some allocations cost together, where that fits.
pub fn total_cost(sizes: &Vec<usize>) -> (total: Option<u64>)
    requires
        forall|i: int| 0 <= i < sizes@.len() ==> #[trigger] sizes@[i] <= usize::MAX - 23,
    ensures
        match total {
            Some(total) => total == cost_of(sizes@),
            None => cost_of(sizes@) > u64::MAX,
        },
{
    let mut total: u64 = 0;
    let mut i: usize = 0;
    while i < sizes.len()
        invariant
            i <= sizes@.len(),
            forall|k: int| 0 <= k < sizes@.len() ==> #[trigger] sizes@[k] <= usize::MAX - 23,
            total == cost_of(sizes@.take(i as int)),
        decreases sizes@.len() - i,
    {
        proof {
            assert(sizes@.take(i + 1).drop_last() =~= sizes@.take(i as int));
            assert(sizes@[i as int] <= usize::MAX - 23);
        }
        match total.checked_add(chunk(sizes[i])) {
            Some(next) => {
                total = next;
            },
            None => {
                proof {
                    lemma_cost_grows(sizes@, i + 1);
                }
                return None;
            },
        }
        i = i + 1;
    }
    proof {
        assert(sizes@.take(i as int) =~= sizes@);
    }
    Some(total)
}

proof fn lemma_cost_grows(sizes: Seq<usize>, k: int)
    requires
        0 <= k <= sizes.len(),
    ensures
        cost_of(sizes.take(k)) <= cost_of(sizes),
    decreases sizes.len() - k,
{
    if k == sizes.len() {
        assert(sizes.take(k) =~= sizes);
    } else {
        assert(sizes.take(k + 1).drop_last() =~= sizes.take(k));
        lemma_cost_grows(sizes, k + 1);
    }
}

/// One reference to an allocation: where it lies, and what it costs.
#[derive(Debug, Clone, Copy, PartialEq, Eq, Structural)]
pub struct Reference {
    pub address: u64,
    pub cost: u64,
}

/// The allocation was met before.
pub open spec fn met(references: Seq<Reference>, address: u64) -> bool {
    exists|i: int| 0 <= i < references.len() && (#[trigger] references[i]).address == address
}

/// What every reference would cost.
pub open spec fn every_reference(references: Seq<Reference>) -> int
    decreases references.len(),
{
    if references.len() == 0 {
        0
    } else {
        every_reference(references.drop_last()) + references.last().cost
    }
}

/// What every distinct allocation costs, and how many there are.
pub open spec fn every_allocation(references: Seq<Reference>) -> (int, nat)
    decreases references.len(),
{
    if references.len() == 0 {
        (0, 0)
    } else {
        let (cost, count) = every_allocation(references.drop_last());
        if met(references.drop_last(), references.last().address) {
            (cost, count)
        } else {
            (cost + references.last().cost, count + 1)
        }
    }
}

/// What the view index costs.
#[derive(Debug, Clone, Copy, PartialEq, Eq, Structural)]
pub struct Charge {
    /// The distinct allocations that the index holds.
    pub evictable: u64,
    /// What the index itself costs, for each view.
    pub inline: u64,
    /// What charging every reference would have said.
    pub undeduplicated: u64,
    /// Distinct allocations.
    pub allocations: usize,
    /// References that were looked at.
    pub examined: usize,
}

/// Charges each distinct allocation once, not each reference to it.
pub fn charge(references: &Vec<Reference>, views: u64, entry: u64) -> (charge: Charge)
    requires
        every_reference(references@) <= u64::MAX,
        views * entry <= u64::MAX,
    ensures
        charge.evictable == every_allocation(references@).0,
        charge.allocations == every_allocation(references@).1,
        charge.undeduplicated == every_reference(references@),
        charge.examined == references@.len(),
        charge.inline == views * entry,
{
    let mut seen: Table<()> = Table::new();
    let mut evictable: u64 = 0;
    let mut undeduplicated: u64 = 0;
    let mut allocations: usize = 0;
    let mut i: usize = 0;
    while i < references.len()
        invariant
            i <= references@.len(),
            every_reference(references@) <= u64::MAX,
            undeduplicated == every_reference(references@.take(i as int)),
            evictable == every_allocation(references@.take(i as int)).0,
            allocations == every_allocation(references@.take(i as int)).1,
            allocations <= i,
            evictable <= undeduplicated,
            forall|address: u64| #[trigger]
                seen@.contains_key(address as Id) <==> met(references@.take(i as int), address),
        decreases references@.len() - i,
    {
        let one = references[i];
        let ghost before = references@.take(i as int);
        let ghost now = references@.take(i + 1);
        proof {
            assert(now.drop_last() =~= before);
            assert(now.last() == one);
            lemma_references_grow(references@, i + 1);
            assert forall|address: u64| met(now, address) <==> (met(before, address) || address
                == one.address) by {
                if met(before, address) {
                    let k = choose|k: int|
                        0 <= k < before.len() && (#[trigger] before[k]).address == address;
                    assert(now[k] == before[k]);
                }
                if met(now, address) {
                    let k = choose|k: int|
                        0 <= k < now.len() && (#[trigger] now[k]).address == address;
                    if k < i {
                        assert(before[k] == now[k]);
                    }
                }
                assert(now[i as int] == one);
            }
        }
        undeduplicated = undeduplicated + one.cost;
        if !seen.has(one.address as Id) {
            seen.put(one.address as Id, ());
            evictable = evictable + one.cost;
            allocations = allocations + 1;
        }
        i = i + 1;
    }
    proof {
        assert(references@.take(i as int) =~= references@);
    }
    Charge {
        evictable,
        inline: views * entry,
        undeduplicated,
        allocations,
        examined: references.len(),
    }
}

proof fn lemma_references_grow(references: Seq<Reference>, k: int)
    requires
        0 <= k <= references.len(),
    ensures
        0 <= every_reference(references.take(k)) <= every_reference(references),
    decreases references.len() - k,
{
    lemma_references_positive(references.take(k));
    if k == references.len() {
        assert(references.take(k) =~= references);
    } else {
        assert(references.take(k + 1).drop_last() =~= references.take(k));
        lemma_references_grow(references, k + 1);
    }
}

proof fn lemma_references_positive(references: Seq<Reference>)
    ensures
        0 <= every_reference(references),
    decreases references.len(),
{
    if references.len() > 0 {
        lemma_references_positive(references.drop_last());
    }
}

/// Counting allocations never says more than counting references, so that sharing can
/// only lower the charge.
pub proof fn sharing_lowers_the_charge(references: Seq<Reference>)
    ensures
        0 <= every_allocation(references).0 <= every_reference(references),
        every_allocation(references).1 <= references.len(),
    decreases references.len(),
{
    if references.len() > 0 {
        sharing_lowers_the_charge(references.drop_last());
    }
}

/// An allocation costs a whole number of sixteen byte units, thirty-two bytes at least, with
/// room for its eight byte header and less than a unit to spare. Asking for nothing costs
/// nothing.
pub proof fn chunks_are_whole_units(requested: int)
    requires
        requested >= 0,
    ensures
        chunk_cost(0) == 0,
        chunk_cost(requested) % 16 == 0,
        requested > 0 ==> chunk_cost(requested) >= 32 && chunk_cost(requested) >= requested + 8,
        requested > 24 ==> chunk_cost(requested) < requested + 8 + 16,
        0 < requested <= 24 ==> chunk_cost(requested) == 32,
{
}

/// Each distinct allocation is charged once: another reference to one that was met costs
/// nothing, and a first one costs what it says.
pub proof fn allocations_are_charged_once(references: Seq<Reference>, next: Reference)
    ensures
        (exists|i: int|
            0 <= i < references.len() && (#[trigger] references[i]).address == next.address)
            ==> every_allocation(references.push(next)) == every_allocation(references),
        (forall|i: int|
            0 <= i < references.len() ==> (#[trigger] references[i]).address != next.address)
            ==> every_allocation(references.push(next)).0 == every_allocation(references).0
            + next.cost && every_allocation(references.push(next)).1 == every_allocation(
            references,
        ).1 + 1,
        every_reference(references.push(next)) == every_reference(references) + next.cost,
        every_allocation(Seq::<Reference>::empty()) == (0int, 0nat),
        every_reference(Seq::<Reference>::empty()) == 0,
{
    assert(references.push(next).drop_last() =~= references);
}

} // verus!
