//! Rows of a table in the order of their places in the queue.
use crate::journal::records::{MutationRecord, QueueRow, UploadRecord};
use crate::journal::tables::{increasing, Table};
use crate::model::Id;
use vstd::prelude::*;

verus! {

/// A row with a place in the queue.
pub trait Sequenced {
    /// The place.
    spec fn place(&self) -> u64;

    /// The place.
    fn sequence(&self) -> (sequence: u64)
        ensures
            sequence == self.place(),
    ;
}

impl Sequenced for UploadRecord {
    open spec fn place(&self) -> u64 {
        self.sequence
    }

    fn sequence(&self) -> (sequence: u64) {
        self.sequence
    }
}

impl Sequenced for MutationRecord {
    open spec fn place(&self) -> u64 {
        self.sequence
    }

    fn sequence(&self) -> (sequence: u64) {
        self.sequence
    }
}

impl Sequenced for QueueRow {
    open spec fn place(&self) -> u64 {
        self.sequence
    }

    fn sequence(&self) -> (sequence: u64) {
        self.sequence
    }
}

impl Sequenced for u64 {
    open spec fn place(&self) -> u64 {
        *self
    }

    fn sequence(&self) -> (sequence: u64) {
        *self
    }
}

/// One row stands before another: the place decides, and the identity where two
/// places are equal.
pub open spec fn earlier(a: (u64, Id), b: (u64, Id)) -> bool {
    a.0 < b.0 || (a.0 == b.0 && a.1 < b.1)
}

/// Every row stands before the rows behind it.
pub open spec fn arranged(rows: Seq<(u64, Id)>) -> bool {
    forall|i: int, j: int| 0 <= i < j < rows.len() ==> earlier(rows[i], rows[j])
}

/// The row belongs to the table and satisfies the condition.
pub open spec fn chosen<T: Sequenced>(
    table: Map<Id, T>,
    wanted: spec_fn(Id, T) -> bool,
    row: (u64, Id),
) -> bool {
    table.contains_key(row.1) && wanted(row.1, table[row.1]) && row.0 == table[row.1].place()
}

/// The rows are exactly those of the table that satisfy a condition, in order.
pub open spec fn listing<T: Sequenced>(
    table: Map<Id, T>,
    wanted: spec_fn(Id, T) -> bool,
    rows: Seq<(u64, Id)>,
) -> bool {
    &&& arranged(rows)
    &&& forall|row: (u64, Id)| #[trigger] rows.contains(row) <==> chosen(table, wanted, row)
}

/// The earliest row of a table that satisfies a condition.
pub open spec fn earliest<T: Sequenced>(
    table: Map<Id, T>,
    wanted: spec_fn(Id, T) -> bool,
    id: Id,
) -> bool {
    &&& table.contains_key(id)
    &&& wanted(id, table[id])
    &&& forall|other: Id| #[trigger]
        table.contains_key(other) && wanted(other, table[other]) ==> other == id || earlier(
            (table[id].place(), id),
            (table[other].place(), other),
        )
}

/// Puts a row at its place among arranged rows.
fn insert_row(rows: &mut Vec<(u64, Id)>, row: (u64, Id))
    requires
        arranged(old(rows)@),
        !old(rows)@.contains(row),
    ensures
        arranged(final(rows)@),
        forall|k: (u64, Id)| #[trigger]
            final(rows)@.contains(k) <==> old(rows)@.contains(k) || k == row,
{
    let ghost before = rows@;
    let mut at: usize = 0;
    while at < rows.len() && (rows[at].0 < row.0 || (rows[at].0 == row.0 && rows[at].1 < row.1))
        invariant
            at <= rows@.len(),
            rows@ == before,
            forall|i: int| 0 <= i < at ==> earlier(#[trigger] before[i], row),
        decreases rows@.len() - at,
    {
        at = at + 1;
    }
    proof {
        if at < before.len() {
            assert(before.contains(before[at as int]));
            assert(earlier(row, before[at as int]));
        }
        assert forall|i: int| at <= i < before.len() implies earlier(row, #[trigger] before[i]) by {
            if i > at {
                assert(earlier(before[at as int], before[i]));
            }
        }
    }
    rows.insert(at, row);
    proof {
        let after = rows@;
        assert(after == before.insert(at as int, row));
        assert forall|i: int, j: int| 0 <= i < j < after.len() implies earlier(after[i], after[j]) by {
            let x = if i < at {
                i
            } else {
                i - 1
            };
            let y = if j < at {
                j
            } else {
                j - 1
            };
            if i != at {
                assert(after[i] == before[x]);
            }
            if j != at {
                assert(after[j] == before[y]);
            }
        }
        assert forall|k: (u64, Id)| #[trigger] after.contains(k) <==> before.contains(k) || k == row by {
            if before.contains(k) {
                let i = choose|i: int| 0 <= i < before.len() && before[i] == k;
                if i < at {
                    assert(after[i] == k);
                } else {
                    assert(after[i + 1] == k);
                }
            }
            assert(after[at as int] == row);
            if after.contains(k) {
                let i = choose|i: int| 0 <= i < after.len() && after[i] == k;
                if i < at {
                    assert(before[i] == k);
                } else if i > at {
                    assert(before[i - 1] == k);
                }
            }
        }
    }
}

/// The rows of a table that satisfy a condition, in the order of their places.
pub(crate) fn select<T: Sequenced, F: Fn(Id, &T) -> bool>(
    table: &Table<T>,
    keep: F,
    Ghost(wanted): Ghost<spec_fn(Id, T) -> bool>,
) -> (rows: Vec<(u64, Id)>)
    requires
        forall|id: Id, row: &T| table@.contains_key(id) && *row == table@[id] ==> keep.requires((id, row)),
        forall|id: Id, row: &T, kept: bool|
            table@.contains_key(id) && *row == table@[id] && keep.ensures((id, row), kept) ==> kept
                == wanted(id, *row),
    ensures
        listing(table@, wanted, rows@),
{
    let ids = table.ids();
    let mut rows: Vec<(u64, Id)> = Vec::new();
    let mut i: usize = 0;
    while i < ids.len()
        invariant
            i <= ids@.len(),
            increasing(ids@),
            forall|id: Id, row: &T|
                table@.contains_key(id) && *row == table@[id] ==> keep.requires((id, row)),
            forall|id: Id, row: &T, kept: bool|
                table@.contains_key(id) && *row == table@[id] && keep.ensures((id, row), kept)
                    ==> kept == wanted(id, *row),
            forall|j: int| 0 <= j < ids@.len() ==> table@.contains_key(#[trigger] ids@[j]),
            arranged(rows@),
            forall|row: (u64, Id)| #[trigger]
                rows@.contains(row) <==> chosen(table@, wanted, row) && ids@.subrange(
                    0,
                    i as int,
                ).contains(row.1),
        decreases ids@.len() - i,
    {
        let id = ids[i];
        proof {
            crate::seqs::lemma_prefix_contains(ids@, i as int);
            assert(table@.contains_key(ids@[i as int]));
            assert(!ids@.subrange(0, i as int).contains(id)) by {
                if ids@.subrange(0, i as int).contains(id) {
                    let j = choose|j: int|
                        0 <= j < i && ids@.subrange(0, i as int)[j] == id;
                    assert(ids@[j] == id);
                }
            }
        }
        if let Some(row) = table.get(id) {
            if keep(id, row) {
                insert_row(&mut rows, (row.sequence(), id));
            }
        }
        i = i + 1;
    }
    proof {
        assert(ids@.subrange(0, i as int) =~= ids@);
        assert forall|row: (u64, Id)| #[trigger] rows@.contains(row) <==> chosen(
            table@,
            wanted,
            row,
        ) by {
            if chosen(table@, wanted, row) {
                assert(ids@.contains(row.1));
            }
        }
    }
    rows
}

/// The head of a listing is the earliest row.
pub proof fn lemma_head<T: Sequenced>(
    table: Map<Id, T>,
    wanted: spec_fn(Id, T) -> bool,
    rows: Seq<(u64, Id)>,
)
    requires
        listing(table, wanted, rows),
    ensures
        rows.len() > 0 ==> earliest(table, wanted, rows[0].1),
        rows.len() == 0 ==> forall|id: Id| !(#[trigger] table.contains_key(id) && wanted(id, table[id])),
{
    if rows.len() > 0 {
        let head = rows[0];
        assert(rows.contains(head));
        assert forall|other: Id| #[trigger]
            table.contains_key(other) && wanted(other, table[other]) implies other == head.1
            || earlier((table[head.1].place(), head.1), (table[other].place(), other)) by {
            let row = (table[other].place(), other);
            assert(chosen(table, wanted, row));
            assert(rows.contains(row));
            let j = choose|j: int| 0 <= j < rows.len() && rows[j] == row;
            if j > 0 {
                assert(earlier(rows[0], rows[j]));
            }
        }
    } else {
        assert forall|id: Id| !(#[trigger] table.contains_key(id) && wanted(id, table[id])) by {
            if table.contains_key(id) && wanted(id, table[id]) {
                let row = (table[id].place(), id);
                assert(chosen(table, wanted, row));
                assert(rows.contains(row));
            }
        }
    }
}

/// The rows of a table that satisfy a condition, in the order of their places.
pub open spec fn listed<T: Sequenced>(
    table: Map<Id, T>,
    wanted: spec_fn(Id, T) -> bool,
) -> Seq<(u64, Id)> {
    choose|rows: Seq<(u64, Id)>| listing(table, wanted, rows)
}

/// There is one order only.
pub proof fn lemma_listed<T: Sequenced>(
    table: Map<Id, T>,
    wanted: spec_fn(Id, T) -> bool,
    rows: Seq<(u64, Id)>,
)
    requires
        listing(table, wanted, rows),
    ensures
        rows == listed(table, wanted),
{
    lemma_one_arrangement(rows, listed(table, wanted));
}

/// Two arrangements of the same rows are the same.
proof fn lemma_one_arrangement(a: Seq<(u64, Id)>, b: Seq<(u64, Id)>)
    requires
        arranged(a),
        arranged(b),
        forall|row: (u64, Id)| #[trigger] a.contains(row) <==> b.contains(row),
    ensures
        a == b,
    decreases a.len(),
{
    if a.len() == 0 {
        if b.len() > 0 {
            assert(b.contains(b[0]));
            assert(a.contains(b[0]));
        }
        assert(a =~= b);
    } else {
        assert(a.contains(a[0]));
        let at = choose|i: int| 0 <= i < b.len() && b[i] == a[0];
        assert(b.contains(b[0]) && a.contains(b[0]));
        let back = choose|i: int| 0 <= i < a.len() && a[i] == b[0];
        if at > 0 {
            assert(earlier(b[0], b[at]));
            assert(back > 0);
            assert(earlier(a[0], a[back]));
        }
        let rest = a.drop_first();
        let other = b.drop_first();
        assert forall|row: (u64, Id)| #[trigger] rest.contains(row) <==> other.contains(row) by {
            lemma_behind_first(a, row);
            lemma_behind_first(b, row);
        }
        lemma_one_arrangement(rest, other);
        assert(a =~= seq![a[0]] + rest);
        assert(b =~= seq![b[0]] + other);
    }
}

/// What stands behind the first row is everything but it.
proof fn lemma_behind_first(rows: Seq<(u64, Id)>, row: (u64, Id))
    requires
        arranged(rows),
        rows.len() > 0,
    ensures
        rows.drop_first().contains(row) <==> rows.contains(row) && row != rows[0],
        arranged(rows.drop_first()),
{
    let rest = rows.drop_first();
    if rest.contains(row) {
        let i = choose|i: int| 0 <= i < rest.len() && rest[i] == row;
        assert(rows[i + 1] == row);
        assert(earlier(rows[0], rows[i + 1]));
    }
    if rows.contains(row) && row != rows[0] {
        let i = choose|i: int| 0 <= i < rows.len() && rows[i] == row;
        assert(rest[i - 1] == row);
    }
    assert forall|i: int, j: int| 0 <= i < j < rest.len() implies earlier(rest[i], rest[j]) by {
        assert(earlier(rows[i + 1], rows[j + 1]));
    }
}

} // verus!
