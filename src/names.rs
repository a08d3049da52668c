use vstd::prelude::*;
use crate::random::choose_one;

verus! {

/// The name given when no word list could be read.
pub open spec fn unreadable_list_name() -> Seq<char> {
    "Crash Override"@
}

/// The name given when the word list is empty.
pub open spec fn empty_list_name() -> Seq<char> {
    "Acid Burn"@
}

/// `name` is a display name that can be drawn from `word_list`: one of its words, or the
/// fixed fallback when the list is empty or could not be read (`None`).
pub open spec fn is_drawn_name(word_list: Option<Vec<String>>, name: Seq<char>) -> bool {
    match word_list {
        Option::None => name == unreadable_list_name(),
        Option::Some(v) => if v@.len() == 0 {
            name == empty_list_name()
        } else {
            exists|i: int| 0 <= i < v@.len() && name == (#[trigger] v@[i])@
        },
    }
}

/// Draws a display name at random from `word_list`, the lines of the word list when it could be
/// read.
pub fn get_name(word_list: &Option<Vec<String>>, rng: &mut rand::rngs::ThreadRng) -> (r: String)
    ensures
        is_drawn_name(*word_list, r@),
{
    match word_list {
        Option::Some(v) => match choose_one(v, rng) {
            Option::Some(s) => s,
            Option::None => "Acid Burn".to_owned(),
        },
        Option::None => "Crash Override".to_owned(),
    }
}

} // verus!
