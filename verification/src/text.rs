//! Text helpers shared by every module: comparison by code points, membership,
//! prefixes and the case folding used for local name slots.
use vstd::prelude::*;
use vstd::utf8::{decode_utf8, valid_utf8};

verus! {

/// The lower case form that the standard library gives a text.
pub uninterp spec fn lowercase(text: Seq<char>) -> Seq<char>;

/// Calls `str::to_lowercase`. The result is a function of the text alone and is
/// named `lowercase`; nothing else is claimed of it.
#[verifier::external_body]
pub(crate) fn to_lowercase(text: &str) -> (folded: String)
    ensures
        folded@ == lowercase(text@),
{
    text.to_lowercase()
}

/// Code point order: the first difference decides, a proper prefix comes first.
pub open spec fn text_less(a: Seq<char>, b: Seq<char>) -> bool
    decreases a.len(),
{
    if b.len() == 0 {
        false
    } else if a.len() == 0 {
        true
    } else if a[0] != b[0] {
        (a[0] as u32) < (b[0] as u32)
    } else {
        text_less(a.drop_first(), b.drop_first())
    }
}

/// The two texts hold the same characters.
pub fn same_text(a: &str, b: &str) -> (same: bool)
    ensures
        same == (a@ == b@),
{
    let mut left = a.chars();
    let mut right = b.chars();
    proof {
        assert(a@ =~= a@.subrange(0, a@.len() as int));
        assert(b@ =~= b@.subrange(0, b@.len() as int));
    }
    let ghost mut i: int = 0;
    loop
        invariant
            0 <= i <= a@.len(),
            0 <= i <= b@.len(),
            vstd::std_specs::iter::IteratorSpec::remaining(&left) == a@.subrange(i, a@.len() as int),
            vstd::std_specs::iter::IteratorSpec::remaining(&right) == b@.subrange(i, b@.len() as int),
            vstd::std_specs::iter::IteratorSpec::obeys_prophetic_iter_laws(&left),
            vstd::std_specs::iter::IteratorSpec::obeys_prophetic_iter_laws(&right),
            a@.subrange(0, i) == b@.subrange(0, i),
        decreases a@.len() - i,
    {
        let x = left.next();
        let y = right.next();
        match (x, y) {
            (None, None) => {
                proof {
                    assert(a@ =~= a@.subrange(0, i));
                    assert(b@ =~= b@.subrange(0, i));
                }
                return true;
            },
            (Some(c), Some(d)) => {
                if c != d {
                    proof {
                        assert(a@[i] == c);
                        assert(b@[i] == d);
                    }
                    return false;
                }
                proof {
                    assert(a@.subrange(0, i + 1) =~= a@.subrange(0, i).push(a@[i]));
                    assert(b@.subrange(0, i + 1) =~= b@.subrange(0, i).push(b@[i]));
                    assert(a@.subrange(i, a@.len() as int).drop_first() =~= a@.subrange(i + 1, a@.len() as int));
                    assert(b@.subrange(i, b@.len() as int).drop_first() =~= b@.subrange(i + 1, b@.len() as int));
                    i = i + 1;
                }
            },
            (None, Some(_)) => {
                proof {
                    assert(a@.len() == i);
                    assert(b@.len() > i);
                }
                return false;
            },
            (Some(_), None) => {
                proof {
                    assert(b@.len() == i);
                    assert(a@.len() > i);
                }
                return false;
            },
        }
    }
}

/// Whether `a` comes before `b` in code point order.
pub fn comes_before(a: &str, b: &str) -> (less: bool)
    ensures
        less == text_less(a@, b@),
{
    let mut left = a.chars();
    let mut right = b.chars();
    proof {
        assert(a@ =~= a@.subrange(0, a@.len() as int));
        assert(b@ =~= b@.subrange(0, b@.len() as int));
    }
    let ghost mut i: int = 0;
    loop
        invariant
            0 <= i <= a@.len(),
            0 <= i <= b@.len(),
            vstd::std_specs::iter::IteratorSpec::remaining(&left) == a@.subrange(i, a@.len() as int),
            vstd::std_specs::iter::IteratorSpec::remaining(&right) == b@.subrange(i, b@.len() as int),
            vstd::std_specs::iter::IteratorSpec::obeys_prophetic_iter_laws(&left),
            vstd::std_specs::iter::IteratorSpec::obeys_prophetic_iter_laws(&right),
            text_less(a@, b@) == text_less(
                a@.subrange(i, a@.len() as int),
                b@.subrange(i, b@.len() as int),
            ),
        decreases a@.len() - i,
    {
        let x = left.next();
        let y = right.next();
        match (x, y) {
            (_, None) => {
                return false;
            },
            (None, Some(_)) => {
                return true;
            },
            (Some(c), Some(d)) => {
                if c != d {
                    return (c as u32) < (d as u32);
                }
                proof {
                    assert(a@.subrange(i, a@.len() as int).drop_first() =~= a@.subrange(i + 1, a@.len() as int));
                    assert(b@.subrange(i, b@.len() as int).drop_first() =~= b@.subrange(i + 1, b@.len() as int));
                    i = i + 1;
                }
            },
        }
    }
}

/// Whether the character occurs in the text.
pub fn contains_char(text: &str, wanted: char) -> (found: bool)
    ensures
        found == text@.contains(wanted),
{
    let mut rest = text.chars();
    proof {
        assert(text@ =~= text@.subrange(0, text@.len() as int));
    }
    let ghost mut i: int = 0;
    loop
        invariant
            0 <= i <= text@.len(),
            vstd::std_specs::iter::IteratorSpec::remaining(&rest) == text@.subrange(i, text@.len() as int),
            vstd::std_specs::iter::IteratorSpec::obeys_prophetic_iter_laws(&rest),
            forall|j: int| 0 <= j < i ==> text@[j] != wanted,
        decreases text@.len() - i,
    {
        match rest.next() {
            None => {
                return false;
            },
            Some(c) => {
                if c == wanted {
                    proof {
                        assert(text@[i] == wanted);
                    }
                    return true;
                }
                proof {
                    assert(text@.subrange(i, text@.len() as int).drop_first() =~= text@.subrange(
                        i + 1,
                        text@.len() as int,
                    ));
                    i = i + 1;
                }
            },
        }
    }
}

/// The characters of the text, as a vector that can be indexed.
pub fn characters(text: &str) -> (all: Vec<char>)
    ensures
        all@ == text@,
{
    let mut all: Vec<char> = Vec::new();
    let mut rest = text.chars();
    proof {
        assert(text@ =~= text@.subrange(0, text@.len() as int));
    }
    let ghost mut i: int = 0;
    loop
        invariant
            0 <= i <= text@.len(),
            vstd::std_specs::iter::IteratorSpec::remaining(&rest) == text@.subrange(i, text@.len() as int),
            vstd::std_specs::iter::IteratorSpec::obeys_prophetic_iter_laws(&rest),
            all@ == text@.subrange(0, i),
        decreases text@.len() - i,
    {
        match rest.next() {
            None => {
                proof {
                    assert(text@ =~= text@.subrange(0, i));
                }
                return all;
            },
            Some(c) => {
                all.push(c);
                proof {
                    assert(text@.subrange(0, i + 1) =~= text@.subrange(0, i).push(text@[i]));
                    assert(text@.subrange(i, text@.len() as int).drop_first() =~= text@.subrange(
                        i + 1,
                        text@.len() as int,
                    ));
                    i = i + 1;
                }
            },
        }
    }
}

/// Two optional texts are both absent or hold the same characters.
pub open spec fn optional_view(text: Option<String>) -> Option<Seq<char>> {
    match text {
        Some(value) => Some(value@),
        None => None,
    }
}

/// Compares two optional texts by content.
pub fn same_optional(a: &Option<String>, b: &Option<String>) -> (same: bool)
    ensures
        same == (optional_view(*a) == optional_view(*b)),
{
    match (a, b) {
        (None, None) => true,
        (Some(x), Some(y)) => *x == *y,
        _ => false,
    }
}

/// An optional text holds exactly the given characters.
pub fn optional_is(a: &Option<String>, b: &str) -> (same: bool)
    ensures
        same == (optional_view(*a) == Some(b@)),
{
    match a {
        None => false,
        Some(x) => same_text(x.as_str(), b),
    }
}

/// A copy of an optional text.
pub fn copy_optional(text: &Option<String>) -> (copy: Option<String>)
    ensures
        copy == *text,
{
    match text {
        Some(value) => Some(value.clone()),
        None => None,
    }
}

/// The character has the Unicode property `White_Space`.
pub open spec fn white(c: char) -> bool {
    let point = c as u32;
    ||| 0x9 <= point <= 0xd
    ||| point == 0x20
    ||| point == 0x85
    ||| point == 0xa0
    ||| point == 0x1680
    ||| 0x2000 <= point <= 0x200a
    ||| point == 0x2028
    ||| point == 0x2029
    ||| point == 0x202f
    ||| point == 0x205f
    ||| point == 0x3000
}

/// Calls `char::is_whitespace`, which tells whether a character has the Unicode property
/// `White_Space`. The characters that have it are listed in `white`.
#[verifier::external_body]
pub(crate) fn is_white(c: char) -> (found: bool)
    ensures
        found == white(c),
{
    c.is_whitespace()
}

/// Calls `String::push`, which puts a character behind the text.
#[verifier::external_body]
pub(crate) fn push_char(text: &mut String, c: char)
    ensures
        final(text)@ == old(text)@.push(c),
{
    text.push(c)
}

/// The text that some characters make.
pub fn text_from(chars: &Vec<char>) -> (text: String)
    ensures
        text@ == chars@,
{
    let mut text = String::new();
    let mut i: usize = 0;
    proof {
        assert(text@ =~= chars@.subrange(0, 0));
    }
    while i < chars.len()
        invariant
            i <= chars@.len(),
            text@ == chars@.subrange(0, i as int),
        decreases chars@.len() - i,
    {
        push_char(&mut text, chars[i]);
        proof {
            assert(chars@.subrange(0, i + 1) =~= chars@.subrange(0, i as int).push(
                chars@[i as int],
            ));
        }
        i = i + 1;
    }
    proof {
        assert(chars@.subrange(0, i as int) =~= chars@);
    }
    text
}

/// Puts one text behind another.
pub fn append(text: &mut String, more: &str)
    ensures
        final(text)@ == old(text)@ + more@,
{
    let ghost start = text@;
    let chars = characters(more);
    let mut i: usize = 0;
    proof {
        assert(start + more@.take(0) =~= start);
    }
    while i < chars.len()
        invariant
            i <= chars@.len(),
            chars@ == more@,
            text@ == start + more@.take(i as int),
        decreases chars@.len() - i,
    {
        push_char(text, chars[i]);
        proof {
            assert((start + more@.take(i as int)).push(more@[i as int]) =~= start + more@.take(
                i + 1,
            ));
        }
        i = i + 1;
    }
    proof {
        assert(more@.take(i as int) =~= more@);
    }
}

/// One text behind another.
pub fn concat(first: &str, second: &str) -> (text: String)
    ensures
        text@ == first@ + second@,
{
    let mut text = first.to_owned();
    append(&mut text, second);
    text
}

/// Different characters have different code points.
proof fn lemma_char_order(a: char, b: char)
    ensures
        a != b ==> a as u32 != b as u32,
{
}

/// No text comes before itself, and of two different texts one comes before the other.
pub proof fn lemma_text_order(a: Seq<char>, b: Seq<char>)
    ensures
        !text_less(a, a),
        a != b ==> text_less(a, b) || text_less(b, a),
        text_less(a, b) ==> !text_less(b, a),
    decreases a.len(),
{
    if a.len() > 0 {
        lemma_text_order(a.drop_first(), a.drop_first());
        if b.len() > 0 {
            lemma_text_order(a.drop_first(), b.drop_first());
            if a[0] == b[0] && a.drop_first() == b.drop_first() {
                assert(a =~= b) by {
                    assert forall|i: int| 0 <= i < a.len() implies a[i] == b[i] by {
                        if i > 0 {
                            assert(a.drop_first()[i - 1] == a[i]);
                            assert(b.drop_first()[i - 1] == b[i]);
                        }
                    }
                    assert(a.drop_first().len() == b.drop_first().len());
                }
            }
            lemma_char_order(a[0], b[0]);
        }
    } else if b.len() == 0 {
        assert(a =~= b);
    }
}

/// The order of texts is transitive.
pub proof fn lemma_text_transitive(a: Seq<char>, b: Seq<char>, c: Seq<char>)
    requires
        text_less(a, b),
        text_less(b, c),
    ensures
        text_less(a, c),
    decreases a.len(),
{
    if a.len() > 0 && b.len() > 0 && c.len() > 0 && a[0] == b[0] && b[0] == c[0] {
        lemma_text_transitive(a.drop_first(), b.drop_first(), c.drop_first());
    }
}

/// The order of texts is transitive, and no text comes before itself.
pub proof fn lemma_text_chain(a: Seq<char>, b: Seq<char>, c: Seq<char>)
    ensures
        text_less(a, b) && text_less(b, c) ==> text_less(a, c),
        text_less(a, b) ==> a != b,
        text_less(a, c) ==> a != c,
{
    lemma_text_order(a, b);
    lemma_text_order(a, c);
    if text_less(a, b) && text_less(b, c) {
        lemma_text_transitive(a, b, c);
    }
}

/// Calls `std::str::from_utf8`, which gives the text of valid UTF-8 and refuses
/// everything else, and `str::to_owned` on what it gives.
#[verifier::external_body]
pub(crate) fn read_text(bytes: &[u8]) -> (text: Option<String>)
    ensures
        match text {
            Some(text) => valid_utf8(bytes@) && text@ == decode_utf8(bytes@),
            None => !valid_utf8(bytes@),
        },
{
    match std::str::from_utf8(bytes) {
        Ok(text) => Some(text.to_owned()),
        Err(_) => None,
    }
}

/// The first difference decides which of two texts comes first, and a text comes before
/// everything that it begins.
pub proof fn the_first_difference_decides(
    start: Seq<char>,
    a: char,
    b: char,
    more: Seq<char>,
    other: Seq<char>,
)
    requires
        a != b,
    ensures
        text_less(start + seq![a] + more, start + seq![b] + other) <==> (a as u32) < (b as u32),
        text_less(start, start + seq![a] + more),
    decreases start.len(),
{
    let left = start + seq![a] + more;
    let right = start + seq![b] + other;
    if start.len() > 0 {
        let rest = start.drop_first();
        assert(left.drop_first() =~= rest + seq![a] + more);
        assert(right.drop_first() =~= rest + seq![b] + other);
        assert(left[0] == start[0] && right[0] == start[0]);
        the_first_difference_decides(rest, a, b, more, other);
    } else {
        assert(left[0] == a && right[0] == b);
    }
}

} // verus!
