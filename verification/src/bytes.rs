//! Numbers as bytes, the lowest byte first.
use vstd::prelude::*;

verus! {

/// The lowest `width` bytes of a number, the lowest one first.
pub open spec fn low_bytes(value: nat, width: nat) -> Seq<u8>
    decreases width,
{
    if width == 0 {
        Seq::empty()
    } else {
        seq![(value % 256) as u8] + low_bytes(value / 256, (width - 1) as nat)
    }
}

/// The number that some bytes stand for, the lowest byte first.
pub open spec fn number_of(bytes: Seq<u8>) -> nat
    decreases bytes.len(),
{
    if bytes.len() == 0 {
        0
    } else {
        bytes[0] as nat + 256 * number_of(bytes.drop_first())
    }
}

/// One more than the largest number of this many bytes.
pub open spec fn limit(width: nat) -> nat
    decreases width,
{
    if width == 0 {
        1
    } else {
        256 * limit((width - 1) as nat)
    }
}

/// A number comes back from its bytes.
pub proof fn numbers_come_back(value: nat, width: nat)
    requires
        value < limit(width),
    ensures
        low_bytes(value, width).len() == width,
        number_of(low_bytes(value, width)) == value,
    decreases width,
{
    if width > 0 {
        numbers_come_back(value / 256, (width - 1) as nat);
        let bytes = low_bytes(value, width);
        assert(bytes.drop_first() =~= low_bytes(value / 256, (width - 1) as nat));
    }
}

/// The limits of the two widths in use.
pub proof fn lemma_limits()
    ensures
        limit(4) == 0x1_0000_0000,
        limit(8) == 0x1_0000_0000_0000_0000,
{
    reveal_with_fuel(limit, 9);
}

proof fn lemma_number_bound(bytes: Seq<u8>)
    ensures
        number_of(bytes) < limit(bytes.len()),
    decreases bytes.len(),
{
    if bytes.len() > 0 {
        lemma_number_bound(bytes.drop_first());
    }
}

proof fn lemma_low_bytes_step(width: nat, done: Seq<u8>, rest: nat)
    requires
        width > 0,
    ensures
        done + low_bytes(rest, width) == done.push((rest % 256) as u8) + low_bytes(
            rest / 256,
            (width - 1) as nat,
        ),
{
    assert(done + low_bytes(rest, width) =~= done.push((rest % 256) as u8) + low_bytes(
        rest / 256,
        (width - 1) as nat,
    ));
}

/// Puts the lowest `width` bytes of a number behind some bytes.
pub fn push_number(bytes: &mut Vec<u8>, value: u64, width: usize)
    ensures
        final(bytes)@ == old(bytes)@ + low_bytes(value as nat, width as nat),
{
    let ghost start = bytes@;
    let mut rest: u64 = value;
    let mut left: usize = width;
    proof {
        assert(bytes@ + low_bytes(rest as nat, left as nat) =~= start + low_bytes(
            value as nat,
            width as nat,
        ));
    }
    while left > 0
        invariant
            left <= width,
            bytes@ + low_bytes(rest as nat, left as nat) == start + low_bytes(
                value as nat,
                width as nat,
            ),
        decreases left,
    {
        proof {
            lemma_low_bytes_step(left as nat, bytes@, rest as nat);
        }
        let low: u64 = rest % 256;
        bytes.push(low as u8);
        rest = rest / 256;
        left = left - 1;
    }
    proof {
        assert(bytes@ + low_bytes(rest as nat, 0) =~= bytes@);
    }
}

/// The number at this place, of at most eight bytes.
pub fn read_number(bytes: &[u8], at: usize, width: usize) -> (value: u64)
    requires
        width <= 8,
        at + width <= bytes@.len(),
    ensures
        value == number_of(bytes@.subrange(at as int, at + width)),
{
    let total = bytes.len();
    let mut value: u64 = 0;
    let mut left: usize = width;
    proof {
        assert(bytes@.subrange(at + left, at + width) =~= Seq::<u8>::empty());
    }
    while left > 0
        invariant
            left <= width <= 8,
            at + width <= total,
            total == bytes@.len(),
            value == number_of(bytes@.subrange(at + left, at + width)),
        decreases left,
    {
        left = left - 1;
        let ghost tail = bytes@.subrange(at + left, at + width);
        proof {
            assert(tail.drop_first() =~= bytes@.subrange(at + left + 1, at + width));
            lemma_number_bound(tail);
            lemma_limit_grows(tail.len(), 8);
            lemma_limits();
        }
        value = bytes[at + left] as u64 + 256 * value;
    }
    value
}

proof fn lemma_limit_grows(a: nat, b: nat)
    requires
        a <= b,
    ensures
        limit(a) <= limit(b),
    decreases b,
{
    if a < b {
        lemma_limit_grows(a, (b - 1) as nat);
    }
}

/// The lowest byte stands first, and each byte counts 256 times the one before it.
pub proof fn the_lowest_byte_stands_first(value: nat, width: nat, byte: u8, bytes: Seq<u8>)
    ensures
        width > 0 ==> low_bytes(value, width).len() > 0 && low_bytes(value, width)[0] == value % 256
            && low_bytes(value, width).drop_first() == low_bytes(value / 256, (width - 1) as nat),
        number_of(seq![byte] + bytes) == byte + 256 * number_of(bytes),
        number_of(Seq::<u8>::empty()) == 0,
{
    assert((seq![byte] + bytes).drop_first() =~= bytes);
    if width > 0 {
        assert(low_bytes(value, width).drop_first() =~= low_bytes(value / 256, (width - 1) as nat));
    }
}

} // verus!
