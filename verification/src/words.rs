//! Splitting text: lines, words, the first occurrence of a separator, white space, numbers.
use crate::text::{is_white, white};
use vstd::prelude::*;

verus! {

/// How many characters stand before the first that satisfies a condition.
pub open spec fn first(text: Seq<char>, stop: spec_fn(char) -> bool) -> nat
    decreases text.len(),
{
    if text.len() == 0 || stop(text[0]) {
        0
    } else {
        1 + first(text.drop_first(), stop)
    }
}

/// The characters before the first stop do not satisfy the condition.
proof fn lemma_first(text: Seq<char>, stop: spec_fn(char) -> bool, at: int)
    requires
        0 <= at <= text.len(),
        forall|i: int| 0 <= i < at ==> !stop(#[trigger] text[i]),
        at < text.len() ==> stop(text[at]),
    ensures
        first(text, stop) == at,
    decreases text.len(),
{
    if at > 0 {
        let rest = text.drop_first();
        assert forall|i: int| 0 <= i < at - 1 implies !stop(#[trigger] rest[i]) by {
            assert(rest[i] == text[i + 1]);
        }
        lemma_first(rest, stop, at - 1);
    }
}

proof fn lemma_first_bound(text: Seq<char>, stop: spec_fn(char) -> bool)
    ensures
        first(text, stop) <= text.len(),
    decreases text.len(),
{
    if text.len() > 0 && !stop(text[0]) {
        lemma_first_bound(text.drop_first(), stop);
    }
}

/// A line without the carriage return before its end.
pub open spec fn trimmed_line(line: Seq<char>) -> Seq<char> {
    if line.len() > 0 && line.last() == '\r' {
        line.drop_last()
    } else {
        line
    }
}

/// The lines of a text. A line feed ends a line, with a carriage return before it
/// where there is one; the end of the last line is optional.
pub open spec fn lines(text: Seq<char>) -> Seq<Seq<char>>
    decreases text.len(),
{
    if text.len() == 0 {
        Seq::empty()
    } else {
        let n = first(text, |c: char| c == '\n') as int;
        if n >= text.len() {
            seq![text]
        } else {
            seq![trimmed_line(text.subrange(0, n))] + lines(text.subrange(n + 1, text.len() as int))
        }
    }
}

/// The words of a text: the longest runs of characters that are no white space.
pub open spec fn words(text: Seq<char>) -> Seq<Seq<char>>
    decreases text.len(),
{
    if text.len() == 0 {
        Seq::empty()
    } else if white(text[0]) {
        words(text.drop_first())
    } else {
        let n = first(text, |c: char| white(c)) as int;
        if n <= 0 || n > text.len() {
            Seq::empty()
        } else {
            seq![text.subrange(0, n)] + words(text.subrange(n, text.len() as int))
        }
    }
}

/// The contents of some pieces.
pub open spec fn views(pieces: Seq<Vec<char>>) -> Seq<Seq<char>> {
    pieces.map_values(|piece: Vec<char>| piece@)
}

proof fn lemma_views_push(pieces: Seq<Vec<char>>, piece: Vec<char>)
    ensures
        views(pieces.push(piece)) == views(pieces).push(piece@),
{
    assert(views(pieces.push(piece)) =~= views(pieces).push(piece@));
}

/// A part of some characters.
pub fn part(chars: &Vec<char>, from: usize, to: usize) -> (piece: Vec<char>)
    requires
        from <= to <= chars@.len(),
    ensures
        piece@ == chars@.subrange(from as int, to as int),
{
    let mut piece: Vec<char> = Vec::new();
    let mut i: usize = from;
    while i < to
        invariant
            from <= i <= to <= chars@.len(),
            piece@ == chars@.subrange(from as int, i as int),
        decreases to - i,
    {
        piece.push(chars[i]);
        proof {
            assert(chars@.subrange(from as int, i + 1) =~= chars@.subrange(
                from as int,
                i as int,
            ).push(chars@[i as int]));
        }
        i = i + 1;
    }
    piece
}

/// The lines of a text.
pub fn split_lines(text: &Vec<char>) -> (found: Vec<Vec<char>>)
    ensures
        views(found@) == lines(text@),
{
    let mut found: Vec<Vec<char>> = Vec::new();
    let mut at: usize = 0;
    proof {
        assert(text@.subrange(0, text@.len() as int) =~= text@);
        assert(views(found@) =~= Seq::<Seq<char>>::empty());
        assert(Seq::<Seq<char>>::empty() + lines(text@) =~= lines(text@));
    }
    while at < text.len()
        invariant
            at <= text@.len(),
            views(found@) + lines(text@.subrange(at as int, text@.len() as int)) == lines(text@),
        decreases text@.len() - at,
    {
        let ghost rest = text@.subrange(at as int, text@.len() as int);
        let ghost stop = |c: char| c == '\n';
        let ghost done = views(found@);
        let mut end: usize = at;
        while end < text.len() && text[end] != '\n'
            invariant
                at <= end <= text@.len(),
                forall|i: int| at <= i < end ==> #[trigger] text@[i] != '\n',
            decreases text@.len() - end,
        {
            end = end + 1;
        }
        proof {
            assert forall|i: int| 0 <= i < end - at implies !stop(#[trigger] rest[i]) by {
                assert(rest[i] == text@[at + i]);
            }
            lemma_first(rest, stop, end - at);
        }
        if end == text.len() {
            let piece = part(text, at, end);
            proof {
                assert(piece@ =~= rest);
                lemma_views_push(found@, piece);
                assert(lines(rest) =~= seq![rest]);
                assert(lines(text@.subrange(end as int, text@.len() as int)) =~= Seq::<
                    Seq<char>,
                >::empty());
                assert(done.push(piece@) + Seq::<Seq<char>>::empty() =~= done + seq![rest]);
            }
            found.push(piece);
            at = end;
        } else {
            let stop_at = if end > at && text[end - 1] == '\r' {
                end - 1
            } else {
                end
            };
            let piece = part(text, at, stop_at);
            proof {
                let line = rest.subrange(0, end - at);
                assert(line.len() > 0 ==> line.last() == text@[end - 1]);
                assert(piece@ =~= trimmed_line(line));
                let tail = rest.subrange(end - at + 1, rest.len() as int);
                assert(tail =~= text@.subrange(end + 1, text@.len() as int));
                lemma_views_push(found@, piece);
                assert(lines(rest) == seq![piece@] + lines(tail));
                assert(done.push(piece@) + lines(tail) =~= done + (seq![piece@] + lines(tail)));
            }
            found.push(piece);
            at = end + 1;
        }
    }
    proof {
        assert(text@.subrange(at as int, text@.len() as int) =~= Seq::<char>::empty());
        assert(views(found@) + Seq::<Seq<char>>::empty() =~= views(found@));
    }
    found
}

/// The words of a text.
pub fn split_words(text: &Vec<char>) -> (found: Vec<Vec<char>>)
    ensures
        views(found@) == words(text@),
{
    let mut found: Vec<Vec<char>> = Vec::new();
    let mut at: usize = 0;
    proof {
        assert(text@.subrange(0, text@.len() as int) =~= text@);
        assert(views(found@) =~= Seq::<Seq<char>>::empty());
        assert(Seq::<Seq<char>>::empty() + words(text@) =~= words(text@));
    }
    while at < text.len()
        invariant
            at <= text@.len(),
            views(found@) + words(text@.subrange(at as int, text@.len() as int)) == words(text@),
        decreases text@.len() - at,
    {
        let ghost rest = text@.subrange(at as int, text@.len() as int);
        let ghost done = views(found@);
        if is_white(text[at]) {
            proof {
                assert(rest.drop_first() =~= text@.subrange(at + 1, text@.len() as int));
            }
            at = at + 1;
        } else {
            let ghost stop = |c: char| white(c);
            let mut end: usize = at;
            let mut inside = true;
            while inside && end < text.len()
                invariant
                    at <= end <= text@.len(),
                    at < text@.len(),
                    !white(text@[at as int]),
                    forall|i: int| at <= i < end ==> !white(#[trigger] text@[i]),
                    !inside ==> end < text@.len() && white(text@[end as int]) && end > at,
                decreases text@.len() - end, inside as int,
            {
                if is_white(text[end]) {
                    inside = false;
                } else {
                    end = end + 1;
                }
            }
            let piece = part(text, at, end);
            proof {
                assert forall|i: int| 0 <= i < end - at implies !stop(#[trigger] rest[i]) by {
                    assert(rest[i] == text@[at + i]);
                }
                lemma_first(rest, stop, end - at);
                assert(end > at);
                let tail = rest.subrange(end - at, rest.len() as int);
                assert(tail =~= text@.subrange(end as int, text@.len() as int));
                assert(piece@ =~= rest.subrange(0, end - at));
                lemma_views_push(found@, piece);
                assert(words(rest) == seq![piece@] + words(tail));
                assert(done.push(piece@) + words(tail) =~= done + (seq![piece@] + words(tail)));
            }
            found.push(piece);
            at = end;
        }
    }
    proof {
        assert(text@.subrange(at as int, text@.len() as int) =~= Seq::<char>::empty());
        assert(views(found@) + Seq::<Seq<char>>::empty() =~= views(found@));
    }
    found
}

/// The separator stands at this place.
pub open spec fn stands_at(text: Seq<char>, separator: Seq<char>, at: int) -> bool {
    0 <= at && at + separator.len() <= text.len() && text.subrange(at, at + separator.len())
        == separator
}

/// The separator stands at this place and at no earlier one.
pub open spec fn first_at(text: Seq<char>, separator: Seq<char>, at: int) -> bool {
    stands_at(text, separator, at) && forall|i: int| i < at ==> !(#[trigger] stands_at(
        text,
        separator,
        i,
    ))
}

/// What stands before and behind the first occurrence of a separator.
pub open spec fn split_at_first(text: Seq<char>, separator: Seq<char>) -> Option<
    (Seq<char>, Seq<char>),
> {
    if exists|at: int| first_at(text, separator, at) {
        let at = choose|at: int| first_at(text, separator, at);
        Some((text.subrange(0, at), text.subrange(at + separator.len(), text.len() as int)))
    } else {
        None
    }
}

/// What stands before and behind the first occurrence of a separator.
pub fn split_once(text: &Vec<char>, separator: &Vec<char>) -> (found: Option<(Vec<char>, Vec<char>)>)
    ensures
        match found {
            Some(pair) => split_at_first(text@, separator@) == Some((pair.0@, pair.1@)),
            None => split_at_first(text@, separator@) is None,
        },
{
    let mut at: usize = 0;
    while at <= text.len()
        invariant
            at <= text@.len() + 1,
            forall|i: int| i < at ==> !(#[trigger] stands_at(text@, separator@, i)),
        decreases text@.len() + 1 - at,
    {
        if separator.len() > text.len() - at {
            proof {
                assert forall|i: int| !first_at(text@, separator@, i) by {
                    if first_at(text@, separator@, i) {
                        assert(stands_at(text@, separator@, i));
                    }
                }
            }
            return None;
        }
        let total: usize = text.len();
        let mut k: usize = 0;
        while k < separator.len() && text[at + k] == separator[k]
            invariant
                k <= separator@.len(),
                at + separator@.len() <= total == text@.len(),
                forall|i: int| 0 <= i < k ==> text@[at + i] == #[trigger] separator@[i],
            decreases separator@.len() - k,
        {
            k = k + 1;
        }
        if k == separator.len() {
            proof {
                assert(text@.subrange(at as int, at + separator@.len()) =~= separator@);
                assert(stands_at(text@, separator@, at as int));
                assert(first_at(text@, separator@, at as int));
                let other = choose|i: int| first_at(text@, separator@, i);
                assert(stands_at(text@, separator@, other));
                assert(other == at);
            }
            return Some((part(text, 0, at), part(text, at + separator.len(), text.len())));
        }
        proof {
            if stands_at(text@, separator@, at as int) {
                assert(text@.subrange(at as int, at + separator@.len())[k as int]
                    == separator@[k as int]);
            }
        }
        if at == text.len() {
            proof {
                assert forall|i: int| !first_at(text@, separator@, i) by {
                    if first_at(text@, separator@, i) {
                        assert(stands_at(text@, separator@, i));
                    }
                }
            }
            return None;
        }
        at = at + 1;
    }
    None
}

/// Both hold the same characters.
pub fn same_chars(a: &Vec<char>, b: &Vec<char>) -> (same: bool)
    ensures
        same == (a@ == b@),
{
    if a.len() != b.len() {
        return false;
    }
    let mut i: usize = 0;
    while i < a.len()
        invariant
            i <= a@.len(),
            a@.len() == b@.len(),
            forall|j: int| 0 <= j < i ==> a@[j] == #[trigger] b@[j],
        decreases a@.len() - i,
    {
        if a[i] != b[i] {
            return false;
        }
        i = i + 1;
    }
    proof {
        assert(a@ =~= b@);
    }
    true
}

/// The characters begin with these.
pub open spec fn begins(text: Seq<char>, start: Seq<char>) -> bool {
    text.len() >= start.len() && text.subrange(0, start.len() as int) == start
}

/// Whether the characters begin with these.
pub fn begins_with(text: &Vec<char>, start: &Vec<char>) -> (found: bool)
    ensures
        found == begins(text@, start@),
{
    if text.len() < start.len() {
        return false;
    }
    let mut i: usize = 0;
    while i < start.len()
        invariant
            i <= start@.len() <= text@.len(),
            forall|j: int| 0 <= j < i ==> text@[j] == #[trigger] start@[j],
        decreases start@.len() - i,
    {
        if text[i] != start[i] {
            proof {
                assert(text@.subrange(0, start@.len() as int)[i as int] == text@[i as int]);
            }
            return false;
        }
        i = i + 1;
    }
    proof {
        assert(text@.subrange(0, start@.len() as int) =~= start@);
    }
    true
}

/// A text without the white space at its start.
pub open spec fn trimmed_start(text: Seq<char>) -> Seq<char>
    decreases text.len(),
{
    if text.len() > 0 && white(text[0]) {
        trimmed_start(text.drop_first())
    } else {
        text
    }
}

/// A text without the white space at its end.
pub open spec fn trimmed_end(text: Seq<char>) -> Seq<char>
    decreases text.len(),
{
    if text.len() > 0 && white(text.last()) {
        trimmed_end(text.drop_last())
    } else {
        text
    }
}

/// A text without the white space around it.
pub fn trim(text: &Vec<char>) -> (inner: Vec<char>)
    ensures
        inner@ == trimmed_end(trimmed_start(text@)),
{
    let mut from: usize = 0;
    proof {
        assert(text@.subrange(0, text@.len() as int) =~= text@);
    }
    let mut going = true;
    while going && from < text.len()
        invariant
            from <= text@.len(),
            trimmed_start(text@) == trimmed_start(text@.subrange(from as int, text@.len() as int)),
            !going ==> from < text@.len() && !white(text@[from as int]),
        decreases text@.len() - from, going as int,
    {
        if is_white(text[from]) {
            proof {
                assert(text@.subrange(from as int, text@.len() as int).drop_first()
                    =~= text@.subrange(from + 1, text@.len() as int));
            }
            from = from + 1;
        } else {
            going = false;
        }
    }
    let ghost inner = text@.subrange(from as int, text@.len() as int);
    proof {
        assert(trimmed_start(text@) == inner);
    }
    let mut to: usize = text.len();
    let mut more = true;
    while more && to > from
        invariant
            from <= to <= text@.len(),
            trimmed_end(inner) == trimmed_end(text@.subrange(from as int, to as int)),
            !more ==> to > from && !white(text@[to - 1]),
        decreases to - from, more as int,
    {
        if is_white(text[to - 1]) {
            proof {
                assert(text@.subrange(from as int, to as int).drop_last() =~= text@.subrange(
                    from as int,
                    to - 1,
                ));
            }
            to = to - 1;
        } else {
            more = false;
        }
    }
    part(text, from, to)
}

/// The character is a decimal digit.
pub open spec fn is_digit(c: char) -> bool {
    '0' <= c && c <= '9'
}

/// Every character is a decimal digit.
pub open spec fn all_digits(text: Seq<char>) -> bool {
    forall|i: int| 0 <= i < text.len() ==> is_digit(#[trigger] text[i])
}

/// The number that some digits make.
pub open spec fn decimal(text: Seq<char>) -> int
    decreases text.len(),
{
    if text.len() == 0 {
        0
    } else {
        10 * decimal(text.drop_last()) + (text.last() as u32 - '0' as u32)
    }
}

/// The digits of a number, without the plus sign that may stand before them.
pub open spec fn number_digits(text: Seq<char>) -> Seq<char> {
    if text.len() > 1 && text[0] == '+' {
        text.drop_first()
    } else {
        text
    }
}

/// The number that a text states, where it fits.
pub open spec fn number(text: Seq<char>) -> Option<u32> {
    match number_within(text, u32::MAX as u64) {
        Some(value) => Some(value as u32),
        None => None,
    }
}

/// The number that a text states, where it is within a limit.
pub open spec fn number_within(text: Seq<char>, limit: u64) -> Option<u64> {
    let digits = number_digits(text);
    if digits.len() > 0 && all_digits(digits) && decimal(digits) <= limit {
        Some(decimal(digits) as u64)
    } else {
        None
    }
}

/// A number only grows with further digits.
proof fn lemma_decimal_grows(text: Seq<char>, i: int)
    requires
        0 <= i <= text.len(),
        all_digits(text),
    ensures
        0 <= decimal(text.subrange(0, i)) <= decimal(text),
    decreases text.len() - i,
{
    if i == text.len() {
        assert(text.subrange(0, i) =~= text);
        lemma_decimal_nonnegative(text);
    } else {
        lemma_decimal_grows(text, i + 1);
        let more = text.subrange(0, i + 1);
        assert(more.drop_last() =~= text.subrange(0, i));
        assert(is_digit(text[i]));
        lemma_decimal_nonnegative(text.subrange(0, i));
    }
}

proof fn lemma_decimal_nonnegative(text: Seq<char>)
    requires
        all_digits(text),
    ensures
        0 <= decimal(text),
    decreases text.len(),
{
    if text.len() > 0 {
        assert(all_digits(text.drop_last())) by {
            assert forall|i: int| 0 <= i < text.len() - 1 implies is_digit(
                #[trigger] text.drop_last()[i],
            ) by {
                assert(text.drop_last()[i] == text[i]);
            }
        }
        assert(is_digit(text[text.len() - 1]));
        lemma_decimal_nonnegative(text.drop_last());
    }
}

/// The number that a text states.
pub fn parse_number(text: &Vec<char>) -> (found: Option<u32>)
    ensures
        found == number(text@),
{
    match parse_within(text, 0xffff_ffff) {
        Some(value) => Some(value as u32),
        None => None,
    }
}

/// The number that a text states, where it is within a limit.
pub fn parse_within(text: &Vec<char>, limit: u64) -> (found: Option<u64>)
    ensures
        found == number_within(text@, limit),
{
    let start: usize = if text.len() > 1 && text[0] == '+' {
        1
    } else {
        0
    };
    let ghost digits = number_digits(text@);
    proof {
        assert(digits =~= text@.subrange(start as int, text@.len() as int));
    }
    if start >= text.len() {
        return None;
    }
    let mut i: usize = start;
    let mut value: u64 = 0;
    proof {
        assert(digits.subrange(0, 0) =~= Seq::<char>::empty());
    }
    while i < text.len()
        invariant
            start <= i <= text@.len(),
            digits == text@.subrange(start as int, text@.len() as int),
            digits == number_digits(text@),
            value == decimal(digits.subrange(0, i - start)),
            value <= limit,
            forall|j: int| 0 <= j < i - start ==> is_digit(#[trigger] digits[j]),
        decreases text@.len() - i,
    {
        let c = text[i];
        proof {
            assert(digits[i - start] == text@[i as int]);
            let more = digits.subrange(0, i - start + 1);
            assert(more.drop_last() =~= digits.subrange(0, i - start));
            assert(more.last() == c);
            if all_digits(digits) {
                lemma_decimal_grows(digits, i - start + 1);
            }
        }
        if c < '0' || c > '9' {
            return None;
        }
        let digit: u32 = c as u32 - '0' as u32;
        let next: u128 = 10 * (value as u128) + digit as u128;
        if next > limit as u128 {
            return None;
        }
        value = next as u64;
        i = i + 1;
    }
    proof {
        assert(digits.subrange(0, i - start) =~= digits);
    }
    Some(value)
}

/// A text is split where the separator first stands: the two halves with the separator between
/// them are the text, and the separator stands nowhere before. A text is not split exactly
/// where the separator stands nowhere in it.
pub proof fn texts_are_split_at_the_first_separator(text: Seq<char>, separator: Seq<char>, i: int)
    ensures
        split_at_first(text, separator) matches Some((before, behind)) ==> {
            &&& text == before + separator + behind
            &&& 0 <= i < before.len() ==> !stands_at(text, separator, i)
        },
        0 <= i && i + separator.len() <= text.len() && text.subrange(i, i + separator.len())
            == separator ==> split_at_first(text, separator) is Some,
    decreases i,
{
    if exists|at: int| first_at(text, separator, at) {
        let at = choose|at: int| first_at(text, separator, at);
        assert(text.subrange(0, at) + text.subrange(at, at + separator.len()) + text.subrange(
            at + separator.len(),
            text.len() as int,
        ) =~= text);
    }
    if stands_at(text, separator, i) {
        if !first_at(text, separator, i) {
            let j = choose|j: int| j < i && stands_at(text, separator, j);
            texts_are_split_at_the_first_separator(text, separator, j);
        }
    }
}

/// A separator of one character that a text does not hold splits what is written before it
/// from what is written behind it.
pub proof fn single_characters_split(before: Seq<char>, separator: char, behind: Seq<char>)
    requires
        !before.contains(separator),
    ensures
        split_at_first(before + seq![separator] + behind, seq![separator]) == Some(
            (before, behind),
        ),
        split_at_first(before, seq![separator]) is None,
{
    let text = before + seq![separator] + behind;
    let at = before.len() as int;
    assert(text.subrange(at, at + 1) =~= seq![separator]);
    assert forall|i: int| i < at implies !(#[trigger] stands_at(text, seq![separator], i)) by {
        if stands_at(text, seq![separator], i) {
            assert(text.subrange(i, i + 1)[0] == separator);
            assert(before[i] == separator);
        }
    }
    assert(first_at(text, seq![separator], at));
    let found = choose|found: int| first_at(text, seq![separator], found);
    assert(found == at) by {
        if found < at {
            assert(!stands_at(text, seq![separator], found));
        }
        if at < found {
            assert(!stands_at(text, seq![separator], at));
        }
    }
    assert(text.subrange(0, at) =~= before);
    assert(text.subrange(at + 1, text.len() as int) =~= behind);
    if exists|k: int| first_at(before, seq![separator], k) {
        let k = choose|k: int| first_at(before, seq![separator], k);
        assert(before.subrange(k, k + 1)[0] == separator);
        assert(before[k] == separator);
    }
}

/// Trimming takes white space from the ends and nothing else.
pub proof fn trimming_takes_only_white_space(text: Seq<char>)
    ensures
        ({
            let left = trimmed_start(text);
            let gone = text.len() - left.len();
            &&& 0 <= gone
            &&& left == text.skip(gone)
            &&& left.len() > 0 ==> !white(left[0])
            &&& forall|i: int| 0 <= i < gone ==> white(#[trigger] text[i])
        }),
        ({
            let left = trimmed_end(text);
            &&& left.len() <= text.len()
            &&& left == text.take(left.len() as int)
            &&& left.len() > 0 ==> !white(left.last())
            &&& forall|i: int| left.len() <= i < text.len() ==> white(#[trigger] text[i])
        }),
    decreases text.len(),
{
    if text.len() > 0 && white(text[0]) {
        let rest = text.drop_first();
        trimming_takes_only_white_space(rest);
        let left = trimmed_start(rest);
        let gone = rest.len() - left.len();
        assert(rest.skip(gone) =~= text.skip(gone + 1));
        assert forall|i: int| 0 <= i < gone + 1 implies white(#[trigger] text[i]) by {
            if i > 0 {
                assert(rest[i - 1] == text[i]);
            }
        }
    } else {
        assert(text.skip(0) =~= text);
    }
    if text.len() > 0 && white(text.last()) {
        let rest = text.drop_last();
        trimming_takes_only_white_space(rest);
        let left = trimmed_end(rest);
        assert(rest.take(left.len() as int) =~= text.take(left.len() as int));
        assert forall|i: int| left.len() <= i < text.len() implies white(#[trigger] text[i]) by {
            if i < rest.len() {
                assert(rest[i] == text[i]);
            }
        }
    } else {
        assert(text.take(text.len() as int) =~= text);
    }
}

/// A word ends where white space follows, and what follows is split the same way. White
/// space before a word makes no difference.
pub proof fn words_end_at_white_space(word: Seq<char>, space: char, rest: Seq<char>)
    requires
        word.len() > 0,
        forall|i: int| 0 <= i < word.len() ==> !white(#[trigger] word[i]),
        white(space),
    ensures
        words(word + seq![space] + rest) == seq![word] + words(rest),
        words(word) == seq![word],
        words(seq![space] + rest) == words(rest),
        words(Seq::<char>::empty()).len() == 0,
{
    let stop = |c: char| white(c);
    let text = word + seq![space] + rest;
    let n = word.len() as int;
    assert forall|i: int| 0 <= i < n implies !stop(#[trigger] text[i]) by {
        assert(text[i] == word[i]);
    }
    assert(stop(text[n]));
    lemma_first(text, |c: char| white(c), n);
    assert(text[0] == word[0]);
    assert(text.subrange(0, n) =~= word);
    let tail = text.subrange(n, text.len() as int);
    assert(tail =~= seq![space] + rest);
    assert(tail[0] == space);
    assert(tail.drop_first() =~= rest);
    assert(words(tail) == words(rest));
    assert(words(text) == seq![word] + words(tail));
    lemma_first(word, |c: char| white(c), n);
    assert(word.subrange(0, n) =~= word);
    assert(word.subrange(n, n).len() == 0);
    assert(words(word.subrange(n, n)).len() == 0);
    assert(words(word) =~= seq![word]);
    assert((seq![space] + rest).drop_first() =~= rest);
}

/// A line ends with a line feed, with or without a carriage return before it; the last line
/// needs no end, and an end behind it starts no other.
pub proof fn lines_end_at_line_feeds(line: Seq<char>, rest: Seq<char>)
    requires
        !line.contains('\n'),
    ensures
        lines(line + seq!['\n'] + rest) == seq![
            if line.len() > 0 && line.last() == '\r' {
                line.drop_last()
            } else {
                line
            },
        ] + lines(rest),
        line.len() > 0 ==> lines(line) == seq![line],
        lines(Seq::<char>::empty()).len() == 0,
{
    let text = line + seq!['\n'] + rest;
    let n = line.len() as int;
    assert forall|i: int| 0 <= i < n implies (#[trigger] text[i]) != '\n' by {
        assert(text[i] == line[i]);
        assert(line.contains(line[i]));
    }
    assert forall|i: int| 0 <= i < n implies (#[trigger] line[i]) != '\n' by {
        assert(line.contains(line[i]));
    }
    lemma_first(text, |c: char| c == '\n', n);
    assert(text.subrange(0, n) =~= line);
    assert(text.subrange(n + 1, text.len() as int) =~= rest);
    lemma_first(line, |c: char| c == '\n', n);
}

/// A number is stated by decimal digits, the most significant first, behind at most one plus
/// sign; anything else states none, and neither does one beyond the limit.
pub proof fn digits_state_numbers(text: Seq<char>, digit: char, limit: u64)
    ensures
        decimal(Seq::<char>::empty()) == 0,
        decimal(text.push(digit)) == 10 * decimal(text) + (digit as u32 - '0' as u32),
        text.len() > 0 && (forall|i: int| 0 <= i < text.len() ==> '0' <= #[trigger] text[i] <= '9')
            && decimal(text) <= limit ==> number_within(text, limit) == Some(decimal(text) as u64)
            && number_within(seq!['+'] + text, limit) == Some(decimal(text) as u64),
        decimal(text) > limit && (forall|i: int|
            0 <= i < text.len() ==> '0' <= #[trigger] text[i] <= '9') ==> number_within(
            text,
            limit,
        ) is None,
        text.len() == 0 ==> number_within(text, limit) is None,
        (exists|i: int| 0 < i < text.len() && !('0' <= #[trigger] text[i] <= '9'))
            ==> number_within(text, limit) is None,
{
    assert(text.push(digit).drop_last() =~= text);
    assert((seq!['+'] + text).drop_first() =~= text);
    if exists|i: int| 0 < i < text.len() && !('0' <= #[trigger] text[i] <= '9') {
        let i = choose|i: int| 0 < i < text.len() && !('0' <= #[trigger] text[i] <= '9');
        assert(text.drop_first()[i - 1] == text[i]);
        assert(!all_digits(text));
        assert(!all_digits(text.drop_first()));
    }
    if text.len() > 0 && forall|i: int| 0 <= i < text.len() ==> '0' <= #[trigger] text[i] <= '9' {
        assert('0' <= text[0] <= '9');
        assert(text[0] != '+');
    }
}

} // verus!
