//! Which names the mount root refuses to become a wastebasket under.
use crate::text::{characters, same_text};
use crate::words::{begins, is_digit};
use vstd::prelude::*;

verus! {

/// A name that a file manager would create as a wastebasket: the shared one, or the
/// one of a numbered user.
pub open spec fn wastebasket(name: Seq<char>) -> bool {
    name == ".Trash"@ || (begins(name, ".Trash-"@) && name.len() > 7 && forall|i: int|
        7 <= i < name.len() ==> is_digit(#[trigger] name[i]))
}

/// Whether a file manager would create this name as a wastebasket.
pub fn is_trash_directory(name: &str) -> (found: bool)
    ensures
        found == wastebasket(name@),
{
    if same_text(name, ".Trash") {
        return true;
    }
    let chars = characters(name);
    let start = characters(".Trash-");
    proof {
        reveal_strlit(".Trash-");
    }
    if !crate::words::begins_with(&chars, &start) || chars.len() <= 7 {
        return false;
    }
    let mut i: usize = 7;
    while i < chars.len()
        invariant
            7 <= i <= chars@.len(),
            chars@ == name@,
            name@ != ".Trash"@,
            forall|j: int| 7 <= j < i ==> is_digit(#[trigger] name@[j]),
        decreases chars@.len() - i,
    {
        if chars[i] < '0' || chars[i] > '9' {
            proof {
                assert(!is_digit(name@[i as int]));
            }
            return false;
        }
        i = i + 1;
    }
    true
}

} // verus!
