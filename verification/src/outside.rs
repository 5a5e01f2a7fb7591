//! Fresh identities, their text form, and the clock.
use crate::model::Id;
use vstd::prelude::*;

verus! {

/// The system clock's reading.
#[verifier::external_type_specification]
#[verifier::external_body]
pub struct ExSystemTime(std::time::SystemTime);

/// The largest second that storage keeps.
pub const SECOND_LIMIT: u64 = 0x7fff_ffff_ffff_ffff;

/// Calls `uuid::Uuid::new_v4` and takes its value as an integer. The identity is
/// random; of every outcome it is claimed that the version bits say four and the
/// variant bits say that the layout is the standard one.
#[verifier::external_body]
pub(crate) fn fresh_id() -> (id: Id)
    ensures
        (id >> 76) & 0xf == 4,
        (id >> 62) & 3 == 2,
{
    uuid::Uuid::new_v4().as_u128()
}

/// The digit of a value below sixteen, in lower case.
pub open spec fn hex_digit(value: u128) -> char {
    if value < 10 {
        (48 + value) as char
    } else {
        (87 + value) as char
    }
}

/// How many digits stand before a place of the text form.
pub open spec fn digits_before(place: int) -> int {
    if place < 8 {
        place
    } else if place < 13 {
        place - 1
    } else if place < 18 {
        place - 2
    } else if place < 23 {
        place - 3
    } else {
        place - 4
    }
}

/// One group of four bits, the highest first.
pub open spec fn nibble(id: Id, k: int) -> u128 {
    (id >> ((4 * (31 - k)) as u128)) & 0xf
}

/// One place of the text form.
pub open spec fn id_char(id: Id, place: int) -> char {
    if place == 8 || place == 13 || place == 18 || place == 23 {
        '-'
    } else {
        hex_digit(nibble(id, digits_before(place)))
    }
}

/// The text form of an identity: 32 lower case digits, the highest first, in
/// groups of 8, 4, 4, 4 and 12 that hyphens separate.
pub open spec fn id_text(id: Id) -> Seq<char> {
    Seq::new(36, |place: int| id_char(id, place))
}

/// Calls `uuid::Uuid::to_string`, the hyphenated lower case form, on the UUID
/// with this value.
#[verifier::external_body]
pub(crate) fn write_id(id: Id) -> (text: String)
    ensures
        text@ == id_text(id),
{
    uuid::Uuid::from_u128(id).to_string()
}

/// What the UUID parser makes of a text.
pub uninterp spec fn read_as(text: Seq<char>) -> Option<Id>;

/// Calls `uuid::Uuid::parse_str`, whose result is named `read_as`. The parser
/// reads the hyphenated form back to the value it was written from.
#[verifier::external_body]
pub(crate) fn read_id(text: &str) -> (id: Option<Id>)
    ensures
        id == read_as(text@),
        forall|value: Id| text@ == #[trigger] id_text(value) ==> id == Some(value),
{
    uuid::Uuid::parse_str(text).ok().map(|id| id.as_u128())
}

/// Calls `std::time::SystemTime::now`. Nothing is claimed of the reading.
#[verifier::external_body]
fn read_clock() -> (now: std::time::SystemTime) {
    std::time::SystemTime::now()
}

/// Calls `std::time::SystemTime::duration_since` for the start of Unix time. A
/// clock set before that gives nothing; nothing else is claimed.
#[verifier::external_body]
fn since_start(now: std::time::SystemTime) -> (span: Option<std::time::Duration>) {
    now.duration_since(std::time::UNIX_EPOCH).ok()
}

/// Calls `std::time::Duration::as_secs`. Nothing is claimed of the number.
#[verifier::external_body]
fn whole_seconds(span: std::time::Duration) -> (seconds: u64) {
    span.as_secs()
}

/// The second that a reading stands for: zero before the start of Unix time, and
/// at most what storage keeps.
pub open spec fn stored_second(reading: Option<u64>) -> u64 {
    match reading {
        Some(seconds) => if seconds < SECOND_LIMIT {
            seconds
        } else {
            SECOND_LIMIT
        },
        None => 0,
    }
}

/// The second that a reading stands for.
pub fn keep_second(reading: Option<u64>) -> (second: u64)
    ensures
        second == stored_second(reading),
{
    match reading {
        Some(seconds) => if seconds < SECOND_LIMIT {
            seconds
        } else {
            SECOND_LIMIT
        },
        None => 0,
    }
}

/// The seconds since the start of Unix time, where the clock is past it.
pub(crate) fn read_seconds() -> (reading: Option<u64>) {
    match since_start(read_clock()) {
        Some(span) => Some(whole_seconds(span)),
        None => None,
    }
}

/// The present second, as the journal stores it.
pub fn now_seconds() -> (second: u64)
    ensures
        exists|reading: Option<u64>| second == #[trigger] stored_second(reading),
        second <= SECOND_LIMIT,
{
    keep_second(read_seconds())
}

/// A text form of one identity is never the text form of another.
pub proof fn texts_tell_identities_apart(a: Id, b: Id)
    requires
        id_text(a) == id_text(b),
    ensures
        a == b,
{
    assert forall|k: int| 0 <= k < 32 implies nibble(a, k) == nibble(b, k) by {
        let place = if k < 8 {
            k
        } else if k < 12 {
            k + 1
        } else if k < 16 {
            k + 2
        } else if k < 20 {
            k + 3
        } else {
            k + 4
        };
        assert(digits_before(place) == k);
        assert(id_text(a)[place] == id_char(a, place));
        assert(id_text(b)[place] == id_char(b, place));
        let shift = (4 * (31 - k)) as u128;
        assert((a >> shift) & 0xf < 16) by (bit_vector);
        assert((b >> shift) & 0xf < 16) by (bit_vector);
        assert(hex_digit(nibble(a, k)) as u32 == hex_digit(nibble(b, k)) as u32);
    }
    nibbles_from(a, b);
    nibbles_decide(a, b);
}

/// Every group of four bits is the same in both.
spec fn nibbles_equal(a: u128, b: u128) -> bool {
    (a >> 124u128) & 0xf == (b >> 124u128) & 0xf && (a >> 120u128) & 0xf == (b >> 120u128) & 0xf && (a
        >> 116u128) & 0xf == (b >> 116u128) & 0xf && (a >> 112u128) & 0xf == (b >> 112u128) & 0xf && (a
        >> 108u128) & 0xf == (b >> 108u128) & 0xf && (a >> 104u128) & 0xf == (b >> 104u128) & 0xf && (a
        >> 100u128) & 0xf == (b >> 100u128) & 0xf && (a >> 96u128) & 0xf == (b >> 96u128) & 0xf && (a
        >> 92u128) & 0xf == (b >> 92u128) & 0xf && (a >> 88u128) & 0xf == (b >> 88u128) & 0xf && (a
        >> 84u128) & 0xf == (b >> 84u128) & 0xf && (a >> 80u128) & 0xf == (b >> 80u128) & 0xf && (a
        >> 76u128) & 0xf == (b >> 76u128) & 0xf && (a >> 72u128) & 0xf == (b >> 72u128) & 0xf && (a
        >> 68u128) & 0xf == (b >> 68u128) & 0xf && (a >> 64u128) & 0xf == (b >> 64u128) & 0xf && (a
        >> 60u128) & 0xf == (b >> 60u128) & 0xf && (a >> 56u128) & 0xf == (b >> 56u128) & 0xf && (a
        >> 52u128) & 0xf == (b >> 52u128) & 0xf && (a >> 48u128) & 0xf == (b >> 48u128) & 0xf && (a
        >> 44u128) & 0xf == (b >> 44u128) & 0xf && (a >> 40u128) & 0xf == (b >> 40u128) & 0xf && (a
        >> 36u128) & 0xf == (b >> 36u128) & 0xf && (a >> 32u128) & 0xf == (b >> 32u128) & 0xf && (a
        >> 28u128) & 0xf == (b >> 28u128) & 0xf && (a >> 24u128) & 0xf == (b >> 24u128) & 0xf && (a
        >> 20u128) & 0xf == (b >> 20u128) & 0xf && (a >> 16u128) & 0xf == (b >> 16u128) & 0xf && (a
        >> 12u128) & 0xf == (b >> 12u128) & 0xf && (a >> 8u128) & 0xf == (b >> 8u128) & 0xf && (a
        >> 4u128) & 0xf == (b >> 4u128) & 0xf && (a >> 0u128) & 0xf == (b >> 0u128) & 0xf
}

proof fn nibbles_from(a: u128, b: u128)
    requires
        forall|k: int| 0 <= k < 32 ==> #[trigger] nibble(a, k) == nibble(b, k),
    ensures
        nibbles_equal(a, b),
{
    assert(nibble(a, 0) == nibble(b, 0));
    assert(nibble(a, 1) == nibble(b, 1));
    assert(nibble(a, 2) == nibble(b, 2));
    assert(nibble(a, 3) == nibble(b, 3));
    assert(nibble(a, 4) == nibble(b, 4));
    assert(nibble(a, 5) == nibble(b, 5));
    assert(nibble(a, 6) == nibble(b, 6));
    assert(nibble(a, 7) == nibble(b, 7));
    assert(nibble(a, 8) == nibble(b, 8));
    assert(nibble(a, 9) == nibble(b, 9));
    assert(nibble(a, 10) == nibble(b, 10));
    assert(nibble(a, 11) == nibble(b, 11));
    assert(nibble(a, 12) == nibble(b, 12));
    assert(nibble(a, 13) == nibble(b, 13));
    assert(nibble(a, 14) == nibble(b, 14));
    assert(nibble(a, 15) == nibble(b, 15));
    assert(nibble(a, 16) == nibble(b, 16));
    assert(nibble(a, 17) == nibble(b, 17));
    assert(nibble(a, 18) == nibble(b, 18));
    assert(nibble(a, 19) == nibble(b, 19));
    assert(nibble(a, 20) == nibble(b, 20));
    assert(nibble(a, 21) == nibble(b, 21));
    assert(nibble(a, 22) == nibble(b, 22));
    assert(nibble(a, 23) == nibble(b, 23));
    assert(nibble(a, 24) == nibble(b, 24));
    assert(nibble(a, 25) == nibble(b, 25));
    assert(nibble(a, 26) == nibble(b, 26));
    assert(nibble(a, 27) == nibble(b, 27));
    assert(nibble(a, 28) == nibble(b, 28));
    assert(nibble(a, 29) == nibble(b, 29));
    assert(nibble(a, 30) == nibble(b, 30));
    assert(nibble(a, 31) == nibble(b, 31));
}

proof fn nibbles_decide(a: u128, b: u128)
    requires
        nibbles_equal(a, b),
    ensures
        a == b,
{
    assert(nibbles_equal(a, b) ==> a == b) by (bit_vector);
}

/// A reading is stored as it is as far as storage keeps it, and one before the start of Unix
/// time is zero.
pub proof fn seconds_are_stored_as_read(seconds: u64)
    ensures
        stored_second(None) == 0,
        seconds <= 0x7fff_ffff_ffff_ffff ==> stored_second(Some(seconds)) == seconds,
        seconds > 0x7fff_ffff_ffff_ffff ==> stored_second(Some(seconds)) == 0x7fff_ffff_ffff_ffff,
{
}

} // verus!
